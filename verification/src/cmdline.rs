//! The command line of a process, as `/proc/<pid>/cmdline` holds it: the
//! arguments in order, each followed by a NUL byte.
//!
//! Arguments are byte strings and stay byte strings from the file to the
//! output: nothing here reads them as text.

use vstd::prelude::*;
use crate::error::ProcError;
use crate::fields::{
    all_free_of, join, lemma_join_split, lemma_split_fields_free, lemma_split_join,
    lemma_split_nonempty, split,
};
use crate::separator::{separator_as_bytes, separator_bytes};

verus! {

/// The byte that ends each argument.
pub const NUL: u8 = 0;

/// The byte that ends the output.
pub const LINE_END: u8 = 0x0a;

/// The byte strings that a vector of arguments holds.
pub open spec fn contents(args: Seq<Vec<u8>>) -> Seq<Seq<u8>> {
    Seq::new(args.len(), |i: int| args[i]@)
}

/// The file image of an argument list: the arguments with a NUL between
/// each two, and a NUL at the end.
pub open spec fn image_of(args: Seq<Seq<u8>>) -> Seq<u8> {
    join(args, seq![NUL]).push(NUL)
}

/// The arguments of a non-empty file image: its last byte, the terminator,
/// is dropped unread, and the rest is split on NUL.
pub open spec fn arguments_of(raw: Seq<u8>) -> Seq<Seq<u8>> {
    split(raw.drop_last(), NUL)
}

/// An argument list as it is shown: the arguments with the continuation
/// separator between each two, and a line break at the end.
pub open spec fn rendering(args: Seq<Seq<u8>>) -> Seq<u8> {
    join(args, separator_bytes()).push(LINE_END)
}

/// What is shown for a command-line file, given what was read of it.
///
/// A file that could not be read is fatal, and so is an empty one, which
/// lacks even the terminator. Any other image is decoded and rendered.
pub open spec fn output_of(cmdline: Option<&[u8]>) -> Result<Seq<u8>, ProcError> {
    match cmdline {
        Some(raw) => if raw@.len() > 0 {
            Ok(rendering(arguments_of(raw@)))
        } else {
            Err(ProcError::Fatal)
        },
        None => Err(ProcError::Fatal),
    }
}

/// Appends `bytes` to `out`.
fn push_bytes(out: &mut Vec<u8>, bytes: &[u8])
    ensures
        final(out)@ == old(out)@ + bytes@,
{
    let mut i: usize = 0;
    while i < bytes.len()
        invariant
            i <= bytes@.len(),
            out@ == old(out)@ + bytes@.take(i as int),
        decreases bytes@.len() - i,
    {
        out.push(bytes[i]);
        assert(old(out)@ + bytes@.take(i + 1) =~= (old(out)@ + bytes@.take(i as int)).push(
            bytes@[i as int],
        ));
        i += 1;
    }
    assert(bytes@.take(i as int) =~= bytes@);
}

/// Splits the image of a command-line file into its arguments.
///
/// An empty image is refused with [`ProcError::Fatal`]. Of any other image
/// the result is [`arguments_of`] it: there is always at least one
/// argument, and every byte but NUL is kept as it is.
pub fn decode_cmdline(raw: &[u8]) -> (decoded: Result<Vec<Vec<u8>>, ProcError>)
    ensures
        raw@.len() == 0 ==> decoded is Err && decoded->Err_0 == ProcError::Fatal,
        raw@.len() > 0 ==> decoded is Ok && contents(decoded->Ok_0@) == arguments_of(raw@),
{
    if raw.len() == 0 {
        return Err(ProcError::Fatal);
    }
    let body_len = raw.len() - 1;
    let ghost body = raw@.drop_last();
    let mut args: Vec<Vec<u8>> = Vec::new();
    let mut arg: Vec<u8> = Vec::new();
    let mut i: usize = 0;
    assert(body.take(0) =~= Seq::empty());
    assert(contents(args@).push(arg@) =~= seq![Seq::empty()]);
    while i < body_len
        invariant
            raw@.len() == body_len + 1,
            i <= body_len == body.len(),
            body == raw@.drop_last(),
            contents(args@).push(arg@) == split(body.take(i as int), NUL),
        decreases body_len - i,
    {
        let ghost before = split(body.take(i as int), NUL);
        assert(body.take(i + 1).drop_last() =~= body.take(i as int));
        assert(body.take(i + 1).last() == raw@[i as int]);
        let byte = raw[i];
        if byte == NUL {
            let ghost closed = arg@;
            args.push(arg);
            arg = Vec::new();
            assert(contents(args@).push(arg@) =~= before.push(Seq::empty()));
        } else {
            let ghost grown = arg@.push(byte);
            arg.push(byte);
            assert(contents(args@).push(arg@) =~= before.drop_last().push(grown));
        }
        i += 1;
    }
    assert(body.take(i as int) =~= body);
    let ghost fields = contents(args@).push(arg@);
    args.push(arg);
    assert(contents(args@) =~= fields);
    Ok(args)
}

/// Renders an argument list: the first argument, then for every further one
/// the continuation separator and the argument, then a line break.
pub fn render_args(args: &[Vec<u8>]) -> (out: Vec<u8>)
    ensures
        out@ == rendering(contents(args@)),
{
    let separator = separator_as_bytes();
    let ghost parts = contents(args@);
    let mut out: Vec<u8> = Vec::new();
    let mut k: usize = 0;
    assert(parts.take(0) =~= Seq::empty());
    while k < args.len()
        invariant
            k <= args@.len(),
            parts == contents(args@),
            separator@ == separator_bytes(),
            out@ == join(parts.take(k as int), separator_bytes()),
        decreases args@.len() - k,
    {
        assert(parts.take(k + 1).drop_last() =~= parts.take(k as int));
        assert(parts.take(k + 1).last() == args@[k as int]@);
        if k > 0 {
            push_bytes(&mut out, separator);
        }
        push_bytes(&mut out, args[k].as_slice());
        assert(out@ =~= join(parts.take(k + 1), separator_bytes()));
        k += 1;
    }
    assert(parts.take(k as int) =~= parts);
    out.push(LINE_END);
    out
}

/// Turns what was read of a command-line file into what is shown for it:
/// `None` stands for a file that could not be read.
///
/// The result is [`output_of`] the argument: [`ProcError::Fatal`] for a
/// missing or empty file, else the arguments of the image, rendered.
pub fn render_cmdline(cmdline: Option<&[u8]>) -> (shown: Result<Vec<u8>, ProcError>)
    ensures
        match output_of(cmdline) {
            Ok(bytes) => shown is Ok && shown->Ok_0@ == bytes,
            Err(error) => shown is Err && shown->Err_0 == error,
        },
{
    let raw = match cmdline {
        Some(raw) => raw,
        None => {
            return Err(ProcError::Fatal);
        },
    };
    match decode_cmdline(raw) {
        Ok(args) => Ok(render_args(args.as_slice())),
        Err(error) => Err(error),
    }
}

/// Decoding undoes encoding. For every list of at least one argument, none
/// of which holds a NUL, the image of the list decodes to the list itself,
/// and what is shown for the image is the arguments as they are, in order,
/// with the separator between them and a line break behind.
pub proof fn lemma_decode_image(args: Seq<Seq<u8>>)
    requires
        args.len() >= 1,
        all_free_of(args, NUL),
    ensures
        image_of(args).len() > 0,
        arguments_of(image_of(args)) == args,
        rendering(arguments_of(image_of(args))) == join(args, separator_bytes()).push(LINE_END),
{
    assert(image_of(args).drop_last() =~= join(args, seq![NUL]));
    lemma_split_join(args, NUL);
}

/// Encoding undoes decoding. An image that ends in NUL is the image of its
/// arguments: decoding loses nothing.
pub proof fn lemma_image_of_arguments(raw: Seq<u8>)
    requires
        raw.len() > 0,
        raw.last() == NUL,
    ensures
        arguments_of(raw).len() >= 1,
        all_free_of(arguments_of(raw), NUL),
        image_of(arguments_of(raw)) == raw,
{
    lemma_split_nonempty(raw.drop_last(), NUL);
    lemma_split_fields_free(raw.drop_last(), NUL);
    lemma_join_split(raw.drop_last(), NUL);
    assert(raw.drop_last().push(NUL) =~= raw);
}

} // verus!
