//! Showing a command one argument per line: the arguments, or the
//! space-separated tokens of a pasted command line, joined by the
//! continuation separator.

use vstd::prelude::*;
use vstd::string::StringExecFns;
use crate::fields::{
    all_free_of, free_of, join, lemma_join_grow_last, lemma_join_holds_separator,
    lemma_join_open_field, lemma_join_split_len, lemma_split_free, lemma_split_join,
    lemma_split_nonempty, lemma_split_single_iff_free, split,
};
use crate::separator::{lemma_separator_text, separator, SEPARATOR};
use crate::text::push_char;

verus! {

/// The space on which a command line is taken apart.
pub const SPACE: char = ' ';

/// A command line, prettified: its tokens, which are what lies between
/// single spaces, joined by the continuation separator. Quotes and escapes
/// mean nothing here, and two spaces in a row enclose an empty token.
pub open spec fn prettified(text: Seq<char>) -> Seq<char> {
    join(split(text, SPACE), separator())
}

/// The texts that a slice of strings holds.
pub open spec fn texts(args: Seq<&str>) -> Seq<Seq<char>> {
    Seq::new(args.len(), |i: int| args[i]@)
}

/// Joins the arguments with the continuation separator.
pub fn format_arglist(args: &[&str]) -> (pretty: String)
    ensures
        pretty@ == join(texts(args@), separator()),
{
    let ghost parts = texts(args@);
    let mut pretty = String::new();
    let mut k: usize = 0;
    assert(parts.take(0) =~= Seq::empty());
    while k < args.len()
        invariant
            k <= args@.len(),
            parts == texts(args@),
            pretty@ == join(parts.take(k as int), separator()),
        decreases args@.len() - k,
    {
        assert(parts.take(k + 1).drop_last() =~= parts.take(k as int));
        assert(parts.take(k + 1).last() == args@[k as int]@);
        if k > 0 {
            proof {
                lemma_separator_text();
            }
            pretty.append(SEPARATOR);
        }
        pretty.append(args[k]);
        assert(pretty@ =~= join(parts.take(k + 1), separator()));
        k += 1;
    }
    assert(parts.take(k as int) =~= parts);
    pretty
}

/// Splits `stuff_in` on single spaces and joins the tokens with the
/// continuation separator.
pub fn prettify(stuff_in: &str) -> (pretty: String)
    ensures
        pretty@ == prettified(stuff_in@),
{
    let mut pretty = String::new();
    assert(stuff_in@.take(0) =~= Seq::empty());
    for c in it: stuff_in.chars()
        invariant
            it.seq() == stuff_in@,
            pretty@ == prettified(it.seq().take(it.index())),
    {
        let ghost seen = it.seq().take(it.index());
        let ghost next = it.seq().take(it.index() + 1);
        proof {
            assert(next.drop_last() =~= seen);
            assert(next.last() == c);
            lemma_split_nonempty(seen, SPACE);
        }
        if c == SPACE {
            proof {
                lemma_separator_text();
                lemma_join_open_field(split(seen, SPACE), separator());
            }
            pretty.append(SEPARATOR);
        } else {
            proof {
                lemma_join_grow_last(split(seen, SPACE), separator(), c);
            }
            push_char(&mut pretty, c);
        }
    }
    assert(stuff_in@.take(stuff_in@.len() as int) =~= stuff_in@);
    pretty
}

/// Tokens that hold no space, written with single spaces between them,
/// prettify to the same tokens joined by the continuation separator. This
/// holds of any number of tokens, none included.
pub proof fn lemma_prettify_joined_tokens(tokens: Seq<Seq<char>>)
    requires
        all_free_of(tokens, SPACE),
    ensures
        prettified(join(tokens, seq![SPACE])) == join(tokens, separator()),
{
    if tokens.len() == 0 {
        assert(join(seq![Seq::<char>::empty()], separator()) =~= Seq::<char>::empty());
    } else {
        lemma_split_join(tokens, SPACE);
    }
}

/// Prettifying leaves a text as it is exactly when the text holds no space.
pub proof fn lemma_prettify_unchanged_iff_no_space(text: Seq<char>)
    ensures
        prettified(text) == text <==> free_of(text, SPACE),
{
    lemma_split_nonempty(text, SPACE);
    lemma_split_single_iff_free(text, SPACE);
    lemma_join_split_len(text, SPACE, separator());
    if free_of(text, SPACE) {
        lemma_split_free(text, SPACE);
    } else {
        let more = split(text, SPACE).len() - 1;
        assert(more * 6 >= 6) by (nonlinear_arith)
            requires
                more >= 1,
        ;
    }
}

/// Prettifying is not idempotent in general, because the separator itself
/// holds spaces: a second pass takes the separators of the first pass for
/// token boundaries and rewrites them. A second pass changes nothing
/// exactly when the first had nothing to do, that is when the text holds no
/// space.
pub proof fn lemma_prettify_idempotent_iff_no_space(text: Seq<char>)
    ensures
        prettified(prettified(text)) == prettified(text) <==> free_of(text, SPACE),
{
    lemma_prettify_unchanged_iff_no_space(text);
    lemma_prettify_unchanged_iff_no_space(prettified(text));
    if !free_of(text, SPACE) {
        lemma_split_nonempty(text, SPACE);
        lemma_split_single_iff_free(text, SPACE);
        assert(separator()[0] == SPACE);
        lemma_join_holds_separator(split(text, SPACE), separator(), SPACE);
    }
}

} // verus!
