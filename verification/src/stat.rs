//! The status line of a process, as `/proc/<pid>/stat` holds it:
//! `pid (comm) state ppid ...`, where `comm` may itself hold spaces and
//! parentheses.

use vstd::prelude::*;
use vstd::slice::slice_subrange;
use crate::decimal::{decimal_digits, is_digit, lemma_decimal_round_trip, parse_u32, u32_of};
use crate::error::ProcError;
use crate::fields::{free_of, lemma_first_field, lemma_first_field_is_prefix, split};
use crate::text::{chars_of, push_chars};

verus! {

/// What a status line tells about one process.
#[derive(Debug)]
pub struct ProcStat {
    /// The display name, verbatim.
    pub comm: String,
    /// The id under which the process was looked up.
    pub pid: u32,
    /// The id of its parent.
    pub ppid: u32,
    /// The one-character state code.
    pub state: char,
}

/// The mathematical content of a [`ProcStat`].
pub struct StatRecord {
    pub comm: Seq<char>,
    pub pid: u32,
    pub ppid: u32,
    pub state: char,
}

impl View for ProcStat {
    type V = StatRecord;

    open spec fn view(&self) -> StatRecord {
        StatRecord { comm: self.comm@, pid: self.pid, ppid: self.ppid, state: self.state }
    }
}

/// The parentheses that enclose the display name: the index of the first
/// `(` of `text` and the index of its last `)`, where both exist and the
/// first comes before the second.
pub open spec fn name_bounds(text: Seq<char>) -> Option<(int, int)> {
    match (text.index_of_first('('), text.index_of_last(')')) {
        (Some(open), Some(close)) => if open < close {
            Some((open, close))
        } else {
            None
        },
        _ => None,
    }
}

/// The fields that follow a display name closed at index `close`: what comes
/// after the `)` and the one character behind it, split on single spaces.
/// That one character is the separating space; it is passed over unread.
pub open spec fn fields_after(text: Seq<char>, close: int) -> Seq<Seq<char>> {
    split(text.skip(close + 2), ' ')
}

/// The record that the status line `text` holds for process `pid`.
///
/// The display name is everything strictly between the first `(` and the
/// last `)`. Of the fields after it, the first gives the state with its
/// first character and the second, read as an unsigned decimal number, the
/// parent id. There is no record where the parentheses are missing or out of
/// order, where nothing follows the separating space, where the first field
/// is empty, or where the second field is missing or is no 32-bit number.
pub open spec fn stat_of(pid: u32, text: Seq<char>) -> Option<StatRecord> {
    match name_bounds(text) {
        Some((open, close)) => {
            let fields = fields_after(text, close);
            if close + 2 <= text.len() && fields.len() >= 2 && fields[0].len() >= 1 && u32_of(
                fields[1],
            ) is Some {
                Some(
                    StatRecord {
                        comm: text.subrange(open + 1, close),
                        pid,
                        ppid: u32_of(fields[1])->0,
                        state: fields[0][0],
                    },
                )
            } else {
                None
            }
        },
        None => None,
    }
}

/// The record that a lookup of `pid` yields, given what was read of its
/// status file: `None` where the file could not be read, else what the text
/// holds.
pub open spec fn lookup_of(pid: u32, stat: Option<&str>) -> Option<StatRecord> {
    match stat {
        Some(text) => stat_of(pid, text@),
        None => None,
    }
}

/// The state of a record is the character that stands two places behind the
/// last `)` of the status line, the pid is the one that was looked up, and
/// the display name lies strictly between the first `(` and the last `)`.
pub proof fn lemma_record_positions(pid: u32, text: Seq<char>)
    requires
        stat_of(pid, text) is Some,
    ensures
        text.index_of_first('(') is Some,
        text.index_of_last(')') is Some,
        ({
            let open = text.index_of_first('(')->0;
            let close = text.index_of_last(')')->0;
            let record = stat_of(pid, text)->0;
            &&& 0 <= open < close
            &&& close + 2 < text.len()
            &&& record.pid == pid
            &&& record.comm == text.subrange(open + 1, close)
            &&& record.state == text[close + 2]
        }),
{
    text.index_of_first_ensures('(');
    text.index_of_last_ensures(')');
    let close = text.index_of_last(')')->0;
    lemma_first_field_is_prefix(text.skip(close + 2), ' ');
}

/// A status line as the kernel writes it: whatever stands before the name
/// (the pid and a space), the name in parentheses, a space, the state, a
/// space, the parent id in decimal, and the fields that follow.
pub open spec fn status_line(before: Seq<char>, record: StatRecord, after: Seq<char>) -> Seq<
    char,
> {
    before + seq!['('] + record.comm + seq![')', ' ', record.state, ' '] + decimal_digits(
        record.ppid as nat,
    ) + after
}

/// Reading a status line gives back the record it was written from, whatever
/// the display name holds: spaces, parentheses, or nothing at all.
///
/// This holds where no `(` stands before the name and no `)` behind the
/// state, where the state is neither a space nor a `)`, and where the
/// parent id ends the line or is followed by a space.
pub proof fn lemma_parse_status_line(
    pid: u32,
    before: Seq<char>,
    record: StatRecord,
    after: Seq<char>,
)
    requires
        record.pid == pid,
        free_of(before, '('),
        free_of(after, ')'),
        record.state != ' ',
        record.state != ')',
        after.len() == 0 || after[0] == ' ',
    ensures
        stat_of(pid, status_line(before, record, after)) == Some(record),
{
    let text = status_line(before, record, after);
    let digits = decimal_digits(record.ppid as nat);
    let open = before.len() as int;
    let close = open + 1 + record.comm.len();
    let tail = seq![record.state, ' '] + digits + after;
    lemma_decimal_round_trip(record.ppid as nat);
    assert(text.len() == close + 4 + digits.len() + after.len());
    assert(text =~= before + seq!['('] + record.comm + seq![')', ' '] + tail);
    assert forall|j: int| 0 <= j < open implies text[j] != '(' by {
        assert(text[j] == before[j]);
    }
    assert(text[open] == '(');
    assert(text[close] == ')');
    assert forall|j: int| close < j < text.len() implies text[j] != ')' by {
        if j == close + 1 {
        } else if j == close + 2 {
            assert(text[j] == record.state);
        } else if j == close + 3 {
        } else if j < close + 4 + digits.len() {
            assert(text[j] == digits[j - close - 4]);
            assert(is_digit(digits[j - close - 4]));
        } else {
            assert(text[j] == after[j - close - 4 - digits.len()]);
        }
    }
    text.index_of_first_ensures('(');
    text.index_of_last_ensures(')');
    assert(text.contains('('));
    assert(text.contains(')'));
    assert(text.index_of_first('(') == Some(open));
    assert(text.index_of_last(')') == Some(close));

    assert(text.skip(close + 2) =~= tail);
    assert(tail.take(1) =~= seq![record.state]);
    assert(free_of(tail.take(1), ' '));
    lemma_first_field(tail, ' ', 1);
    let number = digits + after;
    assert(tail.skip(2) =~= number);
    assert(number.take(digits.len() as int) =~= digits);
    assert forall|j: int| 0 <= j < digits.len() implies digits[j] != ' ' by {
        assert(is_digit(digits[j]));
    }
    lemma_first_field(number, ' ', digits.len() as int);
    let fields = fields_after(text, close);
    assert(fields[1] == fields.drop_first()[0]);
    assert(text.subrange(open + 1, close) =~= record.comm);
}

/// The index of the first `c` in `chars` at or after `from`, or the length
/// of `chars` where there is none.
fn find_from(chars: &[char], from: usize, c: char) -> (at: usize)
    requires
        from <= chars@.len(),
    ensures
        from <= at <= chars@.len(),
        forall|j: int| from <= j < at ==> chars@[j] != c,
        at < chars@.len() ==> chars@[at as int] == c,
{
    let mut at: usize = from;
    while at < chars.len() && chars[at] != c
        invariant
            from <= at <= chars@.len(),
            forall|j: int| from <= j < at ==> chars@[j] != c,
        decreases chars@.len() - at,
    {
        at += 1;
    }
    at
}

/// One past the index of the last `c` in `chars`, or 0 where there is none.
fn find_last(chars: &[char], c: char) -> (end: usize)
    ensures
        end <= chars@.len(),
        forall|j: int| end <= j < chars@.len() ==> chars@[j] != c,
        end > 0 ==> chars@[end - 1] == c,
{
    let mut end: usize = chars.len();
    while end > 0 && chars[end - 1] != c
        invariant
            end <= chars@.len(),
            forall|j: int| end <= j < chars@.len() ==> chars@[j] != c,
        decreases end,
    {
        end -= 1;
    }
    end
}

/// The end of the field of `chars` that begins at `from`: the index of the
/// next space, or the length of `chars`.
fn field_end(chars: &[char], from: usize) -> (end: usize)
    requires
        from <= chars@.len(),
    ensures
        from <= end <= chars@.len(),
        split(chars@.skip(from as int), ' ')[0] == chars@.subrange(from as int, end as int),
        split(chars@.skip(from as int), ' ').len() >= 2 <==> end < chars@.len(),
        end < chars@.len() ==> split(chars@.skip(from as int), ' ').drop_first() == split(
            chars@.skip(end + 1),
            ' ',
        ),
{
    let end = find_from(chars, from, ' ');
    proof {
        let rest = chars@.skip(from as int);
        let at = end - from;
        assert(rest.take(at) =~= chars@.subrange(from as int, end as int));
        assert(free_of(rest.take(at), ' '));
        lemma_first_field(rest, ' ', at);
        if end < chars@.len() {
            assert(rest.skip(at + 1) =~= chars@.skip(end + 1));
        }
    }
    end
}

impl ProcStat {
    /// Reads the status line `text` of process `pid`.
    ///
    /// Gives the record that [`stat_of`] describes, and
    /// [`ProcError::Unavailable`] exactly where there is none.
    pub fn parse(pid: u32, text: &str) -> (parsed: Result<ProcStat, ProcError>)
        ensures
            match stat_of(pid, text@) {
                Some(record) => parsed is Ok && parsed->Ok_0@ == record,
                None => parsed is Err && parsed->Err_0 == ProcError::Unavailable,
            },
    {
        let chars = chars_of(text);
        let len = chars.len();
        let open = find_from(chars.as_slice(), 0, '(');
        let after_close = find_last(chars.as_slice(), ')');
        proof {
            text@.index_of_first_ensures('(');
            text@.index_of_last_ensures(')');
            if open < len {
                assert(text@.contains('('));
                assert(text@.index_of_first('(') == Some(open as int));
            }
            if after_close > 0 {
                assert(text@.contains(')'));
                assert(text@.index_of_last(')') == Some(after_close - 1));
            }
        }
        if open == len || after_close == 0 || open >= after_close - 1 {
            return Err(ProcError::Unavailable);
        }
        let close = after_close - 1;
        assert(name_bounds(text@) == Some((open as int, close as int)));
        if len - close < 2 {
            return Err(ProcError::Unavailable);
        }
        let state_at = close + 2;
        let state_end = field_end(chars.as_slice(), state_at);
        if state_end == len || state_end == state_at {
            return Err(ProcError::Unavailable);
        }
        let ppid_at = state_end + 1;
        let ppid_end = field_end(chars.as_slice(), ppid_at);
        let ghost fields = fields_after(text@, close as int);
        assert(fields[0] == text@.subrange(state_at as int, state_end as int));
        assert(fields[1] == fields.drop_first()[0]);
        assert(fields[1] == text@.subrange(ppid_at as int, ppid_end as int));
        let ppid = match parse_u32(slice_subrange(chars.as_slice(), ppid_at, ppid_end)) {
            Some(ppid) => ppid,
            None => {
                return Err(ProcError::Unavailable);
            },
        };
        let mut comm = String::new();
        push_chars(&mut comm, chars.as_slice(), open + 1, close);
        assert(comm@ =~= text@.subrange(open + 1, close as int));
        Ok(ProcStat { comm, pid, ppid, state: chars[state_at] })
    }

    /// Looks up process `pid`, given what was read of its status file:
    /// `None` where the file could not be read, else its text.
    ///
    /// Gives the record where the file was read and holds one, and `None`
    /// in every other case.
    pub fn read_pid(pid: u32, stat: Option<&str>) -> (found: Option<ProcStat>)
        ensures
            match lookup_of(pid, stat) {
                Some(record) => found is Some && found->0@ == record,
                None => found is None,
            },
    {
        match stat {
            Some(text) => match ProcStat::parse(pid, text) {
                Ok(found) => Some(found),
                Err(_) => None,
            },
            None => None,
        }
    }
}

} // verus!
