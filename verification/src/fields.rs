//! Delimited sequences: what it means to split a sequence on a delimiter and
//! to join fields with a separator, and how the two relate.

use vstd::prelude::*;

verus! {

/// The fields of `s` when every occurrence of `delim` ends one field and
/// begins the next.
///
/// The empty sequence has one field, the empty one. A delimiter at the end
/// of `s` opens a new empty field; any other element extends the last
/// field. There is always exactly one more field than there are delimiters.
pub open spec fn split<T>(s: Seq<T>, delim: T) -> Seq<Seq<T>>
    decreases s.len(),
{
    if s.len() == 0 {
        seq![Seq::empty()]
    } else {
        let before = split(s.drop_last(), delim);
        if s.last() == delim {
            before.push(Seq::empty())
        } else {
            before.drop_last().push(before.last().push(s.last()))
        }
    }
}

/// The fields of `parts` laid end to end with `sep` between each two
/// neighbours. Nothing precedes the first field or follows the last.
pub open spec fn join<T>(parts: Seq<Seq<T>>, sep: Seq<T>) -> Seq<T>
    decreases parts.len(),
{
    if parts.len() == 0 {
        Seq::empty()
    } else if parts.len() == 1 {
        parts[0]
    } else {
        join(parts.drop_last(), sep) + sep + parts.last()
    }
}

/// `x` does not occur in `s`.
pub open spec fn free_of<T>(s: Seq<T>, x: T) -> bool {
    forall|i: int| 0 <= i < s.len() ==> s[i] != x
}

/// `x` occurs in none of `parts`.
pub open spec fn all_free_of<T>(parts: Seq<Seq<T>>, x: T) -> bool {
    forall|k: int| 0 <= k < parts.len() ==> free_of(#[trigger] parts[k], x)
}

/// A split always has at least one field.
pub proof fn lemma_split_nonempty<T>(s: Seq<T>, delim: T)
    ensures
        split(s, delim).len() >= 1,
    decreases s.len(),
{
    if s.len() > 0 {
        lemma_split_nonempty(s.drop_last(), delim);
    }
}

/// No field of a split holds the delimiter.
pub proof fn lemma_split_fields_free<T>(s: Seq<T>, delim: T)
    ensures
        all_free_of(split(s, delim), delim),
    decreases s.len(),
{
    if s.len() > 0 {
        lemma_split_nonempty(s.drop_last(), delim);
        lemma_split_fields_free(s.drop_last(), delim);
        let before = split(s.drop_last(), delim);
        let after = split(s, delim);
        assert forall|k: int| 0 <= k < after.len() implies free_of(#[trigger] after[k], delim) by {
            if k < before.len() - 1 {
                assert(after[k] == before[k]);
            } else if s.last() != delim {
                assert(free_of(before[before.len() - 1], delim));
            }
        }
    }
}

/// A sequence in which the delimiter does not occur is its own single field.
pub proof fn lemma_split_free<T>(s: Seq<T>, delim: T)
    requires
        free_of(s, delim),
    ensures
        split(s, delim) == seq![s],
    decreases s.len(),
{
    if s.len() == 0 {
        assert(s =~= Seq::empty());
    } else {
        lemma_split_free(s.drop_last(), delim);
        assert(s.drop_last().push(s.last()) =~= s);
        assert(seq![s.drop_last()].drop_last().push(s) =~= seq![s]);
    }
}

/// A split has a single field exactly when the delimiter does not occur.
pub proof fn lemma_split_single_iff_free<T>(s: Seq<T>, delim: T)
    ensures
        split(s, delim).len() == 1 <==> free_of(s, delim),
    decreases s.len(),
{
    lemma_split_nonempty(s, delim);
    if s.len() > 0 {
        lemma_split_nonempty(s.drop_last(), delim);
        lemma_split_single_iff_free(s.drop_last(), delim);
        if s.last() != delim && free_of(s.drop_last(), delim) {
            assert forall|i: int| 0 <= i < s.len() implies s[i] != delim by {
                if i < s.len() - 1 {
                    assert(s.drop_last()[i] == s[i]);
                }
            }
        }
        if free_of(s, delim) {
            assert forall|i: int| 0 <= i < s.drop_last().len() implies s.drop_last()[i]
                != delim by {
                assert(s.drop_last()[i] == s[i]);
            }
        }
    }
}

/// Splitting is local: around a delimiter, the fields of the whole are the
/// fields of what precedes it followed by the fields of what follows it.
pub proof fn lemma_split_around_delim<T>(a: Seq<T>, delim: T, b: Seq<T>)
    ensures
        split(a + seq![delim] + b, delim) == split(a, delim) + split(b, delim),
    decreases b.len(),
{
    let whole = a + seq![delim] + b;
    if b.len() == 0 {
        assert(whole.drop_last() =~= a);
        assert(split(a, delim).push(Seq::empty()) =~= split(a, delim) + split(b, delim));
    } else {
        assert(whole.drop_last() =~= a + seq![delim] + b.drop_last());
        assert(whole.last() == b.last());
        lemma_split_around_delim(a, delim, b.drop_last());
        lemma_split_nonempty(b.drop_last(), delim);
        let left = split(a, delim);
        let right = split(b.drop_last(), delim);
        if b.last() == delim {
            assert((left + right).push(Seq::empty()) =~= left + right.push(Seq::empty()));
        } else {
            let grown = right.last().push(b.last());
            assert((left + right).drop_last().push(grown) =~= left + right.drop_last().push(
                grown,
            ));
        }
    }
}

/// The first field of `s` ends at the first delimiter, at index `at`; the
/// other fields are those of what follows that delimiter.
pub proof fn lemma_split_at_first<T>(s: Seq<T>, delim: T, at: int)
    requires
        0 <= at < s.len(),
        s[at] == delim,
        free_of(s.take(at), delim),
    ensures
        split(s, delim) == seq![s.take(at)] + split(s.skip(at + 1), delim),
{
    assert(s =~= s.take(at) + seq![delim] + s.skip(at + 1));
    lemma_split_around_delim(s.take(at), delim, s.skip(at + 1));
    lemma_split_free(s.take(at), delim);
}

/// The first field of `s` is what precedes index `at`, where `at` is the
/// index of the first delimiter, or the length of `s` where there is none.
/// There are more fields exactly when there is a delimiter, and they are the
/// fields of what follows it.
pub proof fn lemma_first_field<T>(s: Seq<T>, delim: T, at: int)
    requires
        0 <= at <= s.len(),
        free_of(s.take(at), delim),
        at < s.len() ==> s[at] == delim,
    ensures
        split(s, delim)[0] == s.take(at),
        split(s, delim).len() >= 2 <==> at < s.len(),
        at < s.len() ==> split(s, delim).drop_first() == split(s.skip(at + 1), delim),
{
    if at < s.len() {
        lemma_split_at_first(s, delim, at);
        lemma_split_nonempty(s.skip(at + 1), delim);
        let rest = split(s.skip(at + 1), delim);
        assert((seq![s.take(at)] + rest).drop_first() =~= rest);
    } else {
        assert(s.take(at) =~= s);
        lemma_split_free(s, delim);
    }
}

/// The first field of a split is a prefix of the sequence that was split.
pub proof fn lemma_first_field_is_prefix<T>(s: Seq<T>, delim: T)
    ensures
        split(s, delim)[0].len() <= s.len(),
        split(s, delim)[0] == s.take(split(s, delim)[0].len() as int),
    decreases s.len(),
{
    if s.len() == 0 {
        assert(s.take(0) =~= Seq::empty());
    } else {
        let rest = s.drop_last();
        let before = split(rest, delim);
        lemma_split_nonempty(rest, delim);
        lemma_first_field_is_prefix(rest, delim);
        let width = before[0].len() as int;
        assert(rest.take(width) =~= s.take(width));
        if s.last() != delim && before.len() == 1 {
            lemma_split_single_iff_free(rest, delim);
            lemma_split_free(rest, delim);
            assert(rest.push(s.last()) =~= s);
            assert(s.take(s.len() as int) =~= s);
        }
    }
}

/// Joining the fields of a split with the delimiter itself gives back the
/// sequence that was split: nothing is lost and nothing is added.
pub proof fn lemma_join_split<T>(s: Seq<T>, delim: T)
    ensures
        join(split(s, delim), seq![delim]) == s,
    decreases s.len(),
{
    if s.len() == 0 {
        assert(s =~= Seq::empty());
    } else {
        let before = split(s.drop_last(), delim);
        let sep = seq![delim];
        lemma_split_nonempty(s.drop_last(), delim);
        lemma_join_split(s.drop_last(), delim);
        if s.last() == delim {
            assert(before.push(Seq::empty()).drop_last() =~= before);
            assert(join(before, sep) + sep + Seq::empty() =~= s);
        } else {
            lemma_join_grow_last(before, sep, s.last());
            assert(s.drop_last().push(s.last()) =~= s);
        }
    }
}

/// Extending the last field by one element extends the joined sequence by
/// that element.
pub proof fn lemma_join_grow_last<T>(parts: Seq<Seq<T>>, sep: Seq<T>, x: T)
    requires
        parts.len() >= 1,
    ensures
        join(parts.drop_last().push(parts.last().push(x)), sep) == join(parts, sep).push(x),
{
    let grown = parts.drop_last().push(parts.last().push(x));
    assert(grown.drop_last() =~= parts.drop_last());
    if parts.len() > 1 {
        assert(join(parts.drop_last(), sep) + sep + parts.last().push(x) =~= (join(
            parts.drop_last(),
            sep,
        ) + sep + parts.last()).push(x));
    }
}

/// Opening a new empty field extends the joined sequence by one separator.
pub proof fn lemma_join_open_field<T>(parts: Seq<Seq<T>>, sep: Seq<T>)
    requires
        parts.len() >= 1,
    ensures
        join(parts.push(Seq::empty()), sep) == join(parts, sep) + sep,
{
    assert(parts.push(Seq::empty()).drop_last() =~= parts);
    assert(join(parts, sep) + sep + Seq::<T>::empty() =~= join(parts, sep) + sep);
}

/// Splitting undoes joining: fields that are free of the delimiter, joined
/// with the delimiter, split into the same fields again. Together with
/// [`lemma_split_fields_free`] and [`lemma_join_split`] this makes
/// `split(s, delim)` the only list of delimiter-free fields whose join is `s`.
pub proof fn lemma_split_join<T>(parts: Seq<Seq<T>>, delim: T)
    requires
        parts.len() >= 1,
        all_free_of(parts, delim),
    ensures
        split(join(parts, seq![delim]), delim) == parts,
    decreases parts.len(),
{
    if parts.len() == 1 {
        lemma_split_free(parts[0], delim);
        assert(seq![parts[0]] =~= parts);
    } else {
        let head = parts.drop_last();
        assert forall|k: int| 0 <= k < head.len() implies free_of(#[trigger] head[k], delim) by {
            assert(head[k] == parts[k]);
        }
        lemma_split_join(head, delim);
        lemma_split_around_delim(join(head, seq![delim]), delim, parts.last());
        lemma_split_free(parts.last(), delim);
        assert(head + seq![parts.last()] =~= parts);
    }
}

/// The length of a split joined with another separator: every delimiter of
/// `s` is exchanged for one separator.
pub proof fn lemma_join_split_len<T>(s: Seq<T>, delim: T, sep: Seq<T>)
    ensures
        join(split(s, delim), sep).len() == s.len() + (split(s, delim).len() - 1) * (sep.len()
            - 1),
    decreases s.len(),
{
    let width = sep.len() - 1;
    if s.len() == 0 {
        assert(0 * width == 0) by (nonlinear_arith);
    } else {
        let before = split(s.drop_last(), delim);
        let fields = before.len() - 1;
        lemma_split_nonempty(s.drop_last(), delim);
        lemma_join_split_len(s.drop_last(), delim, sep);
        assert(join(before, sep).len() == s.len() - 1 + fields * width);
        if s.last() == delim {
            lemma_join_open_field(before, sep);
            assert(split(s, delim).len() - 1 == fields + 1);
            assert((fields + 1) * width == fields * width + width) by (nonlinear_arith);
        } else {
            lemma_join_grow_last(before, sep, s.last());
            assert(split(s, delim).len() - 1 == fields);
        }
    }
}

/// Where a split has more than one field, its join holds the whole
/// separator, and so each element of the separator.
pub proof fn lemma_join_holds_separator<T>(parts: Seq<Seq<T>>, sep: Seq<T>, x: T)
    requires
        parts.len() >= 2,
        !free_of(sep, x),
    ensures
        !free_of(join(parts, sep), x),
{
    let j = choose|j: int| 0 <= j < sep.len() && sep[j] == x;
    let head = join(parts.drop_last(), sep);
    assert(join(parts, sep)[head.len() + j] == x);
}

} // verus!
