//! Linux's compact identifier lists, such as `0-3,8,10-11`.

use vstd::prelude::*;
use crate::text::{
    all_digits, chars_of, digits_value, find_char, first, is_whitespace, lemma_first_bounds, lemma_first_unique,
    parse_usize, parse_usize_at, split, trim, trim_bounds, trim_end, trim_start,
};
use super::{CpuId, NumaNodeId, TopologyError};

verus! {

/// Which rule of the list syntax an input breaks.
#[derive(Debug, Clone, Copy, PartialEq, Eq, Structural)]
pub enum ListFault {
    /// A range bound is not an unsigned integer.
    BadBound,
    /// A range has more than two bounds.
    TooManyBounds,
    /// A range ends before it starts.
    Descending,
    /// A single identifier is not an unsigned integer.
    BadId,
    /// An identifier occurs more than once.
    Repeated,
}

/// The explanation that an error gives for each broken rule (the
/// project's messages are written in French).
pub open spec fn fault_reason(f: ListFault) -> Seq<char> {
    match f {
        ListFault::BadBound => "Impossible de parse l'id cpu"@,
        ListFault::TooManyBounds => "La range de cpu id devrait avoir que 2 borne"@,
        ListFault::Descending => "La fin de la range des cpu est inférieur au début: start > end"@,
        ListFault::BadId => "Impossible de parse l'id du cpu"@,
        ListFault::Repeated => "Les doublons de cpu id ne sont pas accepter"@,
    }
}

/// The explanation that an error gives for `f`.
pub fn fault_text(f: ListFault) -> (r: &'static str)
    ensures
        r@ == fault_reason(f),
{
    match f {
        ListFault::BadBound => "Impossible de parse l'id cpu",
        ListFault::TooManyBounds => "La range de cpu id devrait avoir que 2 borne",
        ListFault::Descending => "La fin de la range des cpu est inférieur au début: start > end",
        ListFault::BadId => "Impossible de parse l'id du cpu",
        ListFault::Repeated => "Les doublons de cpu id ne sont pas accepter",
    }
}

/// `lo, lo + 1, ..., hi`.
pub open spec fn inclusive_range(lo: usize, hi: usize) -> Seq<usize> {
    Seq::new((hi - lo + 1) as nat, |k: int| (lo + k) as usize)
}

/// What one comma-separated element stands for: a single identifier, or an
/// inclusive range `start-end`. Bounds are checked in order: start, end,
/// then the number of bounds, then their order.
pub open spec fn element_outcome(e: Seq<char>) -> Result<Seq<usize>, ListFault> {
    let p = first(e, '-');
    if p < e.len() {
        let rest = e.skip(p as int + 1);
        let q = first(rest, '-');
        match parse_usize(e.take(p as int)) {
            None => Err(ListFault::BadBound),
            Some(start) => match parse_usize(rest.take(q as int)) {
                None => Err(ListFault::BadBound),
                Some(end) => if q < rest.len() {
                    Err(ListFault::TooManyBounds)
                } else if start <= end {
                    Ok(inclusive_range(start, end))
                } else {
                    Err(ListFault::Descending)
                },
            },
        }
    } else {
        match parse_usize(e) {
            None => Err(ListFault::BadId),
            Some(n) => Ok(seq![n]),
        }
    }
}

/// The identifiers of `elements` in order, or the first malformed element
/// with the rule it breaks.
pub open spec fn list_outcome(elements: Seq<Seq<char>>) -> Result<
    Seq<usize>,
    (Seq<char>, ListFault),
>
    decreases elements.len(),
{
    if elements.len() == 0 {
        Ok(seq![])
    } else {
        match element_outcome(elements[0]) {
            Err(f) => Err((elements[0], f)),
            Ok(ids) => prepend_ids(ids, list_outcome(elements.drop_first())),
        }
    }
}

/// `ids` followed by the identifiers of `rest`, unless `rest` failed.
pub open spec fn prepend_ids(ids: Seq<usize>, rest: Result<Seq<usize>, (Seq<char>, ListFault)>) -> Result<
    Seq<usize>,
    (Seq<char>, ListFault),
> {
    match rest {
        Err(e) => Err(e),
        Ok(more) => Ok(ids + more),
    }
}

/// What a whole list stands for: the identifiers of its trimmed,
/// comma-separated elements, which must all differ. A repetition is
/// reported with the untrimmed input.
pub open spec fn id_list_outcome(input: Seq<char>) -> Result<Seq<usize>, (Seq<char>, ListFault)> {
    match list_outcome(split(trim(input), ',')) {
        Err(e) => Err(e),
        Ok(ids) => if ids.no_duplicates() {
            Ok(ids)
        } else {
            Err((input, ListFault::Repeated))
        },
    }
}

/// Whether `s` is in strictly ascending order.
pub open spec fn strictly_increasing(s: Seq<usize>) -> bool {
    forall|i: int, j: int| 0 <= i < j < s.len() ==> s[i] < s[j]
}

/// Whether `r` is what parsing `input` gives: the listed identifiers in
/// ascending order, or the error for the first broken rule.
pub open spec fn id_list_result(input: Seq<char>, r: Result<Vec<usize>, TopologyError>) -> bool {
    match id_list_outcome(input) {
        Ok(ids) => r matches Ok(v) && strictly_increasing(v@) && v@.to_set() == ids.to_set(),
        Err((e, f)) => r matches Err(TopologyError::InvalidIdList { input: i, reason }) && i@ == e
            && reason@ == fault_reason(f),
    }
}

/// A strictly increasing sequence is determined by its set of values.
pub proof fn lemma_strictly_increasing_unique(a: Seq<usize>, b: Seq<usize>)
    requires
        strictly_increasing(a),
        strictly_increasing(b),
        a.to_set() == b.to_set(),
    ensures
        a == b,
    decreases a.len() + b.len(),
{
    broadcast use vstd::seq_lib::group_seq_properties;
    if a.len() == 0 || b.len() == 0 {
        if a.len() > 0 {
            assert(a.to_set().contains(a[0]));
        }
        if b.len() > 0 {
            assert(b.to_set().contains(b[0]));
        }
        assert(a =~= b);
    } else {
        // Both start with their minimum; drop it and recurse.
        assert(a.to_set().contains(a[0]));
        assert(b.to_set().contains(b[0]));
        let ia = choose|i: int| 0 <= i < a.len() && a[i] == b[0];
        let ib = choose|i: int| 0 <= i < b.len() && b[i] == a[0];
        assert(a[0] == b[0]) by {
            if a[0] < b[0] {
                assert(b[ib] == a[0]);
                if ib > 0 {
                    assert(b[0] < b[ib]);
                }
            } else if b[0] < a[0] {
                assert(a[ia] == b[0]);
                if ia > 0 {
                    assert(a[0] < a[ia]);
                }
            }
        }
        let ta = a.drop_first();
        let tb = b.drop_first();
        assert(ta.to_set() =~= tb.to_set()) by {
            assert forall|x: usize| ta.to_set().contains(x) implies tb.to_set().contains(x) by {
                let i = choose|i: int| 0 <= i < ta.len() && ta[i] == x;
                assert(a[i + 1] == x);
                assert(a.to_set().contains(x));
                let j = choose|j: int| 0 <= j < b.len() && b[j] == x;
                assert(j != 0);
                assert(tb[j - 1] == x);
            }
            assert forall|x: usize| tb.to_set().contains(x) implies ta.to_set().contains(x) by {
                let i = choose|i: int| 0 <= i < tb.len() && tb[i] == x;
                assert(b[i + 1] == x);
                assert(b.to_set().contains(x));
                let j = choose|j: int| 0 <= j < a.len() && a[j] == x;
                assert(j != 0);
                assert(ta[j - 1] == x);
            }
        }
        lemma_strictly_increasing_unique(ta, tb);
        assert(a =~= seq![a[0]] + ta);
        assert(b =~= seq![b[0]] + tb);
    }
}

/// Adds `x` to the strictly increasing `ids`; reports whether it was
/// already there.
pub(crate) fn insert_sorted(ids: &mut Vec<usize>, x: usize) -> (present: bool)
    requires
        strictly_increasing(old(ids)@),
    ensures
        strictly_increasing(final(ids)@),
        final(ids)@.to_set() == old(ids)@.to_set().insert(x),
        present == old(ids)@.contains(x),
{
    broadcast use vstd::seq_lib::group_seq_properties;
    let n = ids.len();
    if n == 0 || ids[n - 1] < x {
        proof {
            assert(ids@.push(x).to_set() =~= ids@.to_set().insert(x));
            if ids@.contains(x) {
                let k = choose|k: int| 0 <= k < n && ids@[k] == x;
                if k < n - 1 {
                    assert(ids@[k] < ids@[n - 1]);
                }
            }
        }
        ids.push(x);
        return false;
    }
    // Find the first position holding a value >= x.
    let mut i: usize = 0;
    while ids[i] < x
        invariant
            n == ids@.len(),
            0 <= i < n,
            ids@[n - 1] >= x,
            forall|k: int| 0 <= k < i ==> ids@[k] < x,
        decreases n - i,
    {
        i += 1;
    }
    if ids[i] == x {
        proof {
            assert(ids@.to_set().insert(x) =~= ids@.to_set());
        }
        return true;
    }
    proof {
        assert(!ids@.contains(x)) by {
            if ids@.contains(x) {
                let k = choose|k: int| 0 <= k < n && ids@[k] == x;
                if k > i {
                    assert(ids@[i as int] < ids@[k]);
                }
            }
        }
        assert(ids@.insert(i as int, x).to_set() =~= ids@.to_set().insert(x));
    }
    ids.insert(i, x);
    proof {
        assert forall|a: int, b: int| 0 <= a < b < ids@.len() implies ids@[a] < ids@[b] by {
            let o = old(ids)@;
            if b < i {
            } else if a > i {
                assert(ids@[a] == o[a - 1]);
                assert(ids@[b] == o[b - 1]);
            } else if a == i {
                assert(ids@[b] == o[b - 1]);
                assert(o[i as int] >= x);
                if b - 1 > i {
                    assert(o[i as int] < o[b - 1]);
                }
            } else {
                assert(ids@[a] == o[a]);
                if b == i {
                } else {
                    assert(ids@[b] == o[b - 1]);
                    assert(o[a] < x);
                    assert(o[i as int] >= x);
                    if b - 1 > i {
                        assert(o[i as int] < o[b - 1]);
                    }
                }
            }
        }
    }
    false
}

/// `lo, lo + 1, ...`, `n` values.
pub open spec fn range_prefix(lo: usize, n: nat) -> Seq<usize> {
    Seq::new(n, |k: int| (lo + k) as usize)
}

proof fn lemma_push_no_duplicates(s: Seq<usize>, x: usize)
    ensures
        s.push(x).no_duplicates() == (s.no_duplicates() && !s.contains(x)),
{
    let t = s.push(x);
    if s.no_duplicates() && !s.contains(x) {
        assert forall|i: int, j: int| 0 <= i < j < t.len() implies t[i] != t[j] by {
            if j == t.len() - 1 {
                assert(t[i] == s[i]);
            }
        }
    }
    if !s.no_duplicates() {
        let (i, j) = choose|i: int, j: int| 0 <= i < j < s.len() && s[i] == s[j];
        assert(t[i] == t[j]);
    }
    if s.contains(x) {
        let i = choose|i: int| 0 <= i < s.len() && s[i] == x;
        assert(t[i] == t[t.len() - 1]);
    }
}

/// Adds `lo..=hi` to `ids`, keeping `ids` the sorted set of `acc` and `dup`
/// the record of whether `acc` repeats a value.
fn insert_range(ids: &mut Vec<usize>, lo: usize, hi: usize, dup: &mut bool, Ghost(acc): Ghost<Seq<usize>>)
    requires
        lo <= hi,
        strictly_increasing(old(ids)@),
        old(ids)@.to_set() == acc.to_set(),
        *old(dup) == !acc.no_duplicates(),
    ensures
        strictly_increasing(final(ids)@),
        final(ids)@.to_set() == (acc + inclusive_range(lo, hi)).to_set(),
        *final(dup) == !(acc + inclusive_range(lo, hi)).no_duplicates(),
{
    let mut x = lo;
    let ghost mut cur = acc;
    loop
        invariant
            lo <= x <= hi,
            strictly_increasing(ids@),
            cur == acc + range_prefix(lo, (x - lo) as nat),
            ids@.to_set() == cur.to_set(),
            *dup == !cur.no_duplicates(),
        decreases hi - x,
    {
        let present = insert_sorted(ids, x);
        proof {
            let before = cur;
            cur = cur.push(x);
            before.lemma_push_to_set_commute(x);
            lemma_push_no_duplicates(before, x);
            assert(before.to_set().contains(x) == before.contains(x));
            assert(cur =~= acc + range_prefix(lo, (x + 1 - lo) as nat));
        }
        dup_update(dup, present);
        if x == hi {
            proof {
                assert(range_prefix(lo, (x + 1 - lo) as nat) =~= inclusive_range(lo, hi));
            }
            return;
        }
        x += 1;
    }
}

fn dup_update(dup: &mut bool, present: bool)
    ensures
        *final(dup) == (*old(dup) || present),
{
    if present {
        *dup = true;
    }
}

/// Decimal digits that fit in `usize` parse as their value.
proof fn lemma_parse_digits(d: Seq<char>)
    requires
        d.len() > 0,
        all_digits(d),
        digits_value(d) <= usize::MAX,
    ensures
        parse_usize(d) == Some(digits_value(d) as usize),
{
    assert(crate::text::is_digit(d[0]));
}

/// The pieces of the range element spelled `lo`, a hyphen, then `hi`.
proof fn lemma_range_pieces(lo: Seq<char>, hi: Seq<char>)
    requires
        all_digits(lo),
        all_digits(hi),
    ensures
        ({
            let e = lo + seq!['-'] + hi;
            let p = first(e, '-');
            let rest = e.skip(p as int + 1);
            &&& p == lo.len()
            &&& e.take(p as int) == lo
            &&& rest == hi
            &&& first(rest, '-') == hi.len()
            &&& rest.take(first(rest, '-') as int) == hi
        }),
{
    let e = lo + seq!['-'] + hi;
    assert forall|k: int| 0 <= k < lo.len() implies e[k] != '-' by {
        assert(e[k] == lo[k]);
        assert(crate::text::is_digit(lo[k]));
    }
    assert(e[lo.len() as int] == '-');
    lemma_first_unique(e, '-', lo.len() as int);
    assert(e.take(lo.len() as int) =~= lo);
    assert(e.skip(lo.len() as int + 1) =~= hi);
    assert forall|k: int| 0 <= k < hi.len() implies hi[k] != '-' by {
        assert(crate::text::is_digit(hi[k]));
    }
    lemma_first_unique(hi, '-', hi.len() as int);
    assert(hi.take(hi.len() as int) =~= hi);
}

/// A range element whose bounds are decimal numbers `a <= b` that fit in
/// `usize` stands for exactly the identifiers `a, a + 1, ..., b`, compared
/// by value, not by their digits.
pub proof fn lemma_ascending_range_element(lo: Seq<char>, hi: Seq<char>)
    requires
        lo.len() > 0,
        hi.len() > 0,
        all_digits(lo),
        all_digits(hi),
        digits_value(lo) <= digits_value(hi) <= usize::MAX,
    ensures
        element_outcome(lo + seq!['-'] + hi) matches Ok(ids) && ids.len() == digits_value(hi) - digits_value(lo) + 1
            && forall|k: int| 0 <= k < ids.len() ==> #[trigger] ids[k] == digits_value(lo) + k,
{
    lemma_range_pieces(lo, hi);
    lemma_parse_digits(lo);
    lemma_parse_digits(hi);
}

/// A range element whose end is a smaller number than its start is
/// refused as descending.
pub proof fn lemma_descending_range_element(lo: Seq<char>, hi: Seq<char>)
    requires
        lo.len() > 0,
        hi.len() > 0,
        all_digits(lo),
        all_digits(hi),
        digits_value(hi) < digits_value(lo) <= usize::MAX,
    ensures
        element_outcome(lo + seq!['-'] + hi) == Err::<Seq<usize>, ListFault>(ListFault::Descending),
{
    lemma_range_pieces(lo, hi);
    lemma_parse_digits(lo);
    lemma_parse_digits(hi);
}

/// An element made of decimal digits alone stands for the one identifier
/// that they spell.
pub proof fn lemma_single_element(d: Seq<char>)
    requires
        d.len() > 0,
        all_digits(d),
        digits_value(d) <= usize::MAX,
    ensures
        element_outcome(d) == Ok::<Seq<usize>, ListFault>(seq![digits_value(d) as usize]),
{
    assert forall|k: int| 0 <= k < d.len() implies d[k] != '-' by {
        assert(crate::text::is_digit(d[k]));
    }
    lemma_first_unique(d, '-', d.len() as int);
    lemma_parse_digits(d);
}

/// A list whose trimmed text is one range `a-b` of decimal numbers with
/// `a <= b` stands for exactly the identifiers `a, a + 1, ..., b`.
pub proof fn lemma_ascending_range_list(input: Seq<char>, lo: Seq<char>, hi: Seq<char>)
    requires
        trim(input) == lo + seq!['-'] + hi,
        lo.len() > 0,
        hi.len() > 0,
        all_digits(lo),
        all_digits(hi),
        digits_value(lo) <= digits_value(hi) <= usize::MAX,
    ensures
        id_list_outcome(input) matches Ok(ids) && ids.len() == digits_value(hi) - digits_value(lo) + 1
            && forall|k: int| 0 <= k < ids.len() ==> #[trigger] ids[k] == digits_value(lo) + k,
{
    let e = lo + seq!['-'] + hi;
    lemma_ascending_range_element(lo, hi);
    assert forall|k: int| 0 <= k < e.len() implies e[k] != ',' by {
        if k < lo.len() {
            assert(e[k] == lo[k]);
            assert(crate::text::is_digit(lo[k]));
        } else if k > lo.len() {
            assert(e[k] == hi[k - lo.len() - 1]);
            assert(crate::text::is_digit(hi[k - lo.len() - 1]));
        }
    }
    lemma_first_unique(e, ',', e.len() as int);
    let parts = split(e, ',');
    assert(parts == seq![e]);
    assert(parts[0] == e);
    assert(parts.drop_first() =~= Seq::<Seq<char>>::empty());
    let ids = element_outcome(e)->Ok_0;
    let none: Seq<Seq<char>> = Seq::empty();
    assert(list_outcome(none) == Ok::<Seq<usize>, (Seq<char>, ListFault)>(seq![]));
    assert(ids + seq![] =~= ids);
    assert(list_outcome(parts) == prepend_ids(ids, list_outcome(parts.drop_first())));
    assert(list_outcome(parts) == Ok::<Seq<usize>, (Seq<char>, ListFault)>(ids));
    assert forall|i: int, j: int| 0 <= i < ids.len() && 0 <= j < ids.len() && i != j implies ids[i] != ids[j] by {
        assert(ids[i] == digits_value(lo) + i);
        assert(ids[j] == digits_value(lo) + j);
    }
    assert(ids.no_duplicates());
}

/// Parsing, as CPU identifiers, a list whose trimmed text is one range
/// `a-b` of decimal numbers with `a <= b` succeeds with the CPUs
/// `a, a + 1, ..., b` in that order.
pub proof fn lemma_cpu_range_list(input: Seq<char>, lo: Seq<char>, hi: Seq<char>, r: Result<Vec<CpuId>, TopologyError>)
    requires
        trim(input) == lo + seq!['-'] + hi,
        lo.len() > 0,
        hi.len() > 0,
        all_digits(lo),
        all_digits(hi),
        digits_value(lo) <= digits_value(hi) <= usize::MAX,
        cpu_list_result(input, r),
    ensures
        r matches Ok(v) && v@.len() == digits_value(hi) - digits_value(lo) + 1
            && forall|k: int| 0 <= k < v@.len() ==> #[trigger] v@[k]@ == digits_value(lo) + k,
{
    lemma_ascending_range_list(input, lo, hi);
    let ids = id_list_outcome(input)->Ok_0;
    let v = r->Ok_0;
    let cs = v@.map_values(|c: CpuId| c@);
    lemma_strictly_increasing_unique(cs, ids);
    assert forall|k: int| 0 <= k < v@.len() implies #[trigger] v@[k]@ == digits_value(lo) + k by {
        assert(cs[k] == v@[k]@);
    }
}

/// Splitting at every `c` the text `x`, `c`, `y` gives the pieces of `x`
/// then those of `y`.
proof fn lemma_split_join(x: Seq<char>, c: char, y: Seq<char>)
    ensures
        split(x + seq![c] + y, c) == split(x, c) + split(y, c),
    decreases x.len(),
{
    let whole = x + seq![c] + y;
    let p = first(x, c);
    lemma_first_bounds(x, c);
    if p < x.len() {
        assert forall|k: int| 0 <= k < p implies whole[k] != c by {
            assert(whole[k] == x[k]);
        }
        assert(whole[p as int] == x[p as int]);
        lemma_first_unique(whole, c, p as int);
        assert(whole.take(p as int) =~= x.take(p as int));
        let tail = x.skip(p as int + 1);
        assert(whole.skip(p as int + 1) =~= tail + seq![c] + y);
        lemma_split_join(tail, c, y);
        assert(split(whole, c) == seq![x.take(p as int)] + split(tail + seq![c] + y, c));
        assert(split(x, c) == seq![x.take(p as int)] + split(tail, c));
        assert(split(whole, c) =~= split(x, c) + split(y, c));
    } else {
        assert forall|k: int| 0 <= k < x.len() implies whole[k] != c by {
            assert(whole[k] == x[k]);
        }
        lemma_first_unique(whole, c, x.len() as int);
        assert(whole.take(x.len() as int) =~= x);
        assert(whole.skip(x.len() as int + 1) =~= y);
        assert(split(x, c) == seq![x]);
        assert(split(whole, c) =~= split(x, c) + split(y, c));
    }
}

/// The outcome of two runs of elements, one after the other: the first
/// run's error, else its identifiers before the second run's outcome.
proof fn lemma_list_outcome_join(a: Seq<Seq<char>>, b: Seq<Seq<char>>)
    ensures
        list_outcome(a + b) == match list_outcome(a) {
            Err(e) => Err(e),
            Ok(ids) => prepend_ids(ids, list_outcome(b)),
        },
    decreases a.len(),
{
    if a.len() == 0 {
        assert(a + b =~= b);
        match list_outcome(b) {
            Ok(more) => {
                assert(seq![] + more =~= more);
            },
            Err(_) => {},
        }
    } else {
        assert((a + b)[0] == a[0]);
        assert((a + b).drop_first() =~= a.drop_first() + b);
        lemma_list_outcome_join(a.drop_first(), b);
        match element_outcome(a[0]) {
            Ok(ids) => {
                lemma_prepend_assoc(Seq::empty(), ids, list_outcome(a.drop_first()));
                match list_outcome(a.drop_first()) {
                    Ok(more) => {
                        lemma_prepend_assoc(ids, more, list_outcome(b));
                    },
                    Err(_) => {},
                }
            },
            Err(_) => {},
        }
    }
}

/// Text without surrounding whitespace is its own trimmed form.
proof fn lemma_trim_unchanged(s: Seq<char>)
    requires
        s.len() > 0,
        !is_whitespace(s[0]),
        !is_whitespace(s.last()),
    ensures
        trim(s) == s,
{
}

/// Joining two lists with a comma joins what they stand for: when each of
/// `x` and `y` (without surrounding whitespace) stands for identifiers,
/// `x,y` stands for those of `x` then those of `y` if no identifier is in
/// both, and is refused as a repetition otherwise.
pub proof fn lemma_joined_lists(x: Seq<char>, y: Seq<char>)
    requires
        x.len() > 0,
        y.len() > 0,
        !is_whitespace(x[0]),
        !is_whitespace(x.last()),
        !is_whitespace(y[0]),
        !is_whitespace(y.last()),
        id_list_outcome(x) is Ok,
        id_list_outcome(y) is Ok,
    ensures
        ({
            let ix = id_list_outcome(x)->Ok_0;
            let iy = id_list_outcome(y)->Ok_0;
            let whole = x + seq![','] + y;
            &&& (forall|k: int| 0 <= k < ix.len() ==> !iy.contains(#[trigger] ix[k]))
                ==> id_list_outcome(whole) == Ok::<Seq<usize>, (Seq<char>, ListFault)>(ix + iy)
            &&& (exists|k: int| 0 <= k < ix.len() && iy.contains(#[trigger] ix[k]))
                ==> id_list_outcome(whole) == Err::<Seq<usize>, (Seq<char>, ListFault)>((whole, ListFault::Repeated))
        }),
{
    let whole = x + seq![','] + y;
    lemma_trim_unchanged(x);
    lemma_trim_unchanged(y);
    assert(whole[0] == x[0]);
    assert(whole.last() == y.last());
    lemma_trim_unchanged(whole);
    lemma_split_join(x, ',', y);
    lemma_list_outcome_join(split(x, ','), split(y, ','));
    let ix = id_list_outcome(x)->Ok_0;
    let iy = id_list_outcome(y)->Ok_0;
    let both = ix + iy;
    assert(list_outcome(split(whole, ',')) == Ok::<Seq<usize>, (Seq<char>, ListFault)>(both));
    if forall|k: int| 0 <= k < ix.len() ==> !iy.contains(#[trigger] ix[k]) {
        assert forall|i: int, j: int| 0 <= i < both.len() && 0 <= j < both.len() && i != j implies both[i] != both[j] by {
            if i < ix.len() && j >= ix.len() {
                assert(iy[j - ix.len()] == both[j]);
                assert(!iy.contains(ix[i]));
            } else if j < ix.len() && i >= ix.len() {
                assert(iy[i - ix.len()] == both[i]);
                assert(!iy.contains(ix[j]));
            } else if i < ix.len() {
                assert(ix.no_duplicates());
            } else {
                assert(iy.no_duplicates());
                assert(both[i] == iy[i - ix.len()]);
                assert(both[j] == iy[j - ix.len()]);
            }
        }
    } else {
        let k = choose|k: int| 0 <= k < ix.len() && iy.contains(#[trigger] ix[k]);
        let m = choose|m: int| 0 <= m < iy.len() && iy[m] == ix[k];
        assert(both[k] == both[ix.len() + m]);
    }
}

/// The bounds of what element `s[from..to]` stands for, or the rule it
/// breaks.
fn element_bounds(s: &Vec<char>, from: usize, to: usize) -> (r: Result<(usize, usize), ListFault>)
    requires
        from <= to <= s@.len(),
    ensures
        match element_outcome(s@.subrange(from as int, to as int)) {
            Ok(ids) => r matches Ok((lo, hi)) && lo <= hi && ids == inclusive_range(lo, hi),
            Err(f) => r == Err::<(usize, usize), ListFault>(f),
        },
{
    let ghost e = s@.subrange(from as int, to as int);
    let p = find_char(s, from, to, '-');
    if p < to {
        let ghost rest = e.skip(p - from + 1);
        assert(rest == s@.subrange(p + 1, to as int));
        let q = find_char(s, p + 1, to, '-');
        assert(e.take(p - from) == s@.subrange(from as int, p as int));
        assert(rest.take(q - (p + 1)) == s@.subrange(p + 1, q as int));
        let start = parse_usize_at(s, from, p);
        match start {
            None => Err(ListFault::BadBound),
            Some(start) => {
                let end = parse_usize_at(s, p + 1, q);
                match end {
                    None => Err(ListFault::BadBound),
                    Some(end) => {
                        if q < to {
                            Err(ListFault::TooManyBounds)
                        } else if start <= end {
                            Ok((start, end))
                        } else {
                            Err(ListFault::Descending)
                        }
                    },
                }
            },
        }
    } else {
        let n = parse_usize_at(s, from, to);
        match n {
            None => Err(ListFault::BadId),
            Some(n) => {
                assert(inclusive_range(n, n) =~= seq![n]);
                Ok((n, n))
            },
        }
    }
}

proof fn lemma_split_front(rem: Seq<char>, p: int)
    requires
        0 <= p <= rem.len(),
        p == first(rem, ','),
    ensures
        split(rem, ',').len() > 0,
        split(rem, ',')[0] == rem.take(p),
        split(rem, ',').drop_first() == if p < rem.len() {
            split(rem.skip(p + 1), ',')
        } else {
            Seq::<Seq<char>>::empty()
        },
{
    if p < rem.len() {
        assert((seq![rem.take(p)] + split(rem.skip(p + 1), ',')).drop_first() == split(
            rem.skip(p + 1),
            ',',
        ));
    } else {
        assert(rem.take(p) == rem);
        assert(seq![rem].drop_first() == Seq::<Seq<char>>::empty());
    }
}

proof fn lemma_prepend_assoc(acc: Seq<usize>, ids: Seq<usize>, r: Result<Seq<usize>, (Seq<char>, ListFault)>)
    ensures
        prepend_ids(acc, prepend_ids(ids, r)) == prepend_ids(acc + ids, r),
{
    match r {
        Ok(more) => {
            assert(acc + (ids + more) == (acc + ids) + more);
        },
        Err(_) => {},
    }
}

/// Parses a Linux identifier list into sorted, distinct identifiers.
///
/// The list holds comma-separated identifiers and inclusive ranges such as
/// `0-3,8,10-11`, with surrounding whitespace ignored. Empty elements,
/// malformed integers, ranges without exactly two bounds, descending ranges
/// and repeated identifiers are rejected.
pub fn parse_id_list(input: &str) -> (r: Result<Vec<usize>, TopologyError>)
    ensures
        id_list_result(input@, r),
{
    let s = chars_of(input);
    let (a, b) = trim_bounds(&s, 0, s.len());
    proof {
        assert(s@.subrange(0, s@.len() as int) == s@);
    }
    let ghost t = s@.subrange(a as int, b as int);
    let mut ids: Vec<usize> = Vec::new();
    let mut dup = false;
    let ghost mut acc: Seq<usize> = seq![];
    proof {
        assert(ids@.to_set() =~= acc.to_set());
        assert(prepend_ids(acc, list_outcome(split(t, ','))) == list_outcome(split(t, ','))) by {
            match list_outcome(split(t, ',')) {
                Ok(more) => {
                    assert(acc + more == more);
                },
                Err(_) => {},
            }
        }
    }
    let mut st = a;
    loop
        invariant_except_break
            list_outcome(split(t, ',')) == prepend_ids(
                acc,
                list_outcome(split(s@.subrange(st as int, b as int), ',')),
            ),
        invariant
            a <= st <= b <= s@.len(),
            s@ == input@,
            t == s@.subrange(a as int, b as int),
            t == trim(input@),
            strictly_increasing(ids@),
            ids@.to_set() == acc.to_set(),
            dup == !acc.no_duplicates(),
        ensures
            list_outcome(split(t, ',')) == Ok::<Seq<usize>, (Seq<char>, ListFault)>(acc),
        decreases b - st,
    {
        let ghost rem = s@.subrange(st as int, b as int);
        let p = find_char(&s, st, b, ',');
        let ghost elem = s@.subrange(st as int, p as int);
        proof {
            lemma_split_front(rem, p - st);
            assert(rem.take(p - st) == elem);
            if p < b {
                assert(rem.skip(p - st + 1) == s@.subrange(p + 1, b as int));
            }
        }
        let bounds = element_bounds(&s, st, p);
        match bounds {
            Err(f) => {
                proof {
                    let els = split(rem, ',');
                    assert(list_outcome(els) == Err::<Seq<usize>, (Seq<char>, ListFault)>((elem, f)));
                    assert(t == trim(input@));
                }
                let text = String::from_str(input.substring_char(st, p));
                return Err(TopologyError::InvalidIdList { input: text, reason: fault_text(f) });
            },
            Ok((lo, hi)) => {
                insert_range(&mut ids, lo, hi, &mut dup, Ghost(acc));
                proof {
                    let els = split(rem, ',');
                    let ids_e = inclusive_range(lo, hi);
                    assert(list_outcome(els) == prepend_ids(ids_e, list_outcome(els.drop_first())));
                    lemma_prepend_assoc(acc, ids_e, list_outcome(els.drop_first()));
                    acc = acc + ids_e;
                    if p == b {
                        assert(acc + Seq::<usize>::empty() == acc);
                    }
                }
                if p == b {
                    break;
                }
                st = p + 1;
            },
        }
    }
    if dup {
        let text = String::from_str(input);
        return Err(TopologyError::InvalidIdList { input: text, reason: fault_text(ListFault::Repeated) });
    }
    Ok(ids)
}

/// Whether `r` is what parsing `input` as CPU identifiers gives.
pub open spec fn cpu_list_result(input: Seq<char>, r: Result<Vec<CpuId>, TopologyError>) -> bool {
    match id_list_outcome(input) {
        Ok(ids) => r matches Ok(v) && strictly_increasing(v@.map_values(|c: CpuId| c@))
            && v@.map_values(|c: CpuId| c@).to_set() == ids.to_set(),
        Err((e, f)) => r matches Err(TopologyError::InvalidIdList { input: i, reason }) && i@ == e
            && reason@ == fault_reason(f),
    }
}

/// Whether `r` is what parsing `input` as NUMA-node identifiers gives.
pub open spec fn node_list_result(input: Seq<char>, r: Result<Vec<NumaNodeId>, TopologyError>) -> bool {
    match id_list_outcome(input) {
        Ok(ids) => r matches Ok(v) && strictly_increasing(v@.map_values(|n: NumaNodeId| n@))
            && v@.map_values(|n: NumaNodeId| n@).to_set() == ids.to_set(),
        Err((e, f)) => r matches Err(TopologyError::InvalidIdList { input: i, reason }) && i@ == e
            && reason@ == fault_reason(f),
    }
}

/// Parses a Linux list as logical-CPU identifiers, in ascending order.
pub fn parse_cpu_list(input: &str) -> (r: Result<Vec<CpuId>, TopologyError>)
    ensures
        cpu_list_result(input@, r),
{
    let ids = parse_id_list(input)?;
    let mut out: Vec<CpuId> = Vec::new();
    let mut i: usize = 0;
    while i < ids.len()
        invariant
            i <= ids@.len(),
            out@.len() == i,
            out@.map_values(|c: CpuId| c@) == ids@.take(i as int),
        decreases ids@.len() - i,
    {
        let c = CpuId::new(ids[i]);
        let ghost before = out@;
        out.push(c);
        proof {
            assert forall|k: int| 0 <= k < i + 1 implies out@.map_values(|c: CpuId| c@)[k] == #[trigger] ids@.take(i + 1)[k] by {
                if k < i {
                    assert(out@[k] == before[k]);
                    assert(before.map_values(|c: CpuId| c@)[k] == ids@.take(i as int)[k]);
                }
            }
            assert(out@.map_values(|c: CpuId| c@) =~= ids@.take(i + 1));
        }
        i += 1;
    }
    proof {
        assert(ids@.take(ids@.len() as int) == ids@);
    }
    Ok(out)
}

/// Parses a Linux list as NUMA-node identifiers, in ascending order.
pub fn parse_numa_node_list(input: &str) -> (r: Result<Vec<NumaNodeId>, TopologyError>)
    ensures
        node_list_result(input@, r),
{
    let ids = parse_id_list(input)?;
    let mut out: Vec<NumaNodeId> = Vec::new();
    let mut i: usize = 0;
    while i < ids.len()
        invariant
            i <= ids@.len(),
            out@.len() == i,
            out@.map_values(|n: NumaNodeId| n@) == ids@.take(i as int),
        decreases ids@.len() - i,
    {
        let n = NumaNodeId::new(ids[i]);
        let ghost before = out@;
        out.push(n);
        proof {
            assert forall|k: int| 0 <= k < i + 1 implies out@.map_values(|n: NumaNodeId| n@)[k] == #[trigger] ids@.take(i + 1)[k] by {
                if k < i {
                    assert(out@[k] == before[k]);
                    assert(before.map_values(|n: NumaNodeId| n@)[k] == ids@.take(i as int)[k]);
                }
            }
            assert(out@.map_values(|n: NumaNodeId| n@) =~= ids@.take(i + 1));
        }
        i += 1;
    }
    proof {
        assert(ids@.take(ids@.len() as int) == ids@);
    }
    Ok(out)
}

} // verus!
