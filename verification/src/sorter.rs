//! Stable ordering of attribute records by name, size or modification time.

use vstd::prelude::*;
use vstd::utf8::encode_utf8;
use crate::entry::FileInfo;

verus! {

/// What a listing is ordered by.
#[derive(Debug, Clone, Copy, PartialEq, Eq, Structural)]
pub enum SortKey {
    Name,
    Size,
    Time,
}

/// Lexicographic order on bytes: `a` comes no later than `b` when `a` is a
/// prefix of `b` or holds the smaller byte where the two first differ.
pub open spec fn lex_le(a: Seq<u8>, b: Seq<u8>) -> bool
    decreases a.len(),
{
    if a.len() == 0 {
        true
    } else if b.len() == 0 {
        false
    } else if a[0] != b[0] {
        a[0] < b[0]
    } else {
        lex_le(a.drop_first(), b.drop_first())
    }
}

/// Whether `x` may stand before `y` under `key`. Names and times compare as
/// the bytes of their UTF-8 text, which orders text by code point and a
/// `YYYY-MM-DD HH:MM:SS` time chronologically; sizes compare as numbers.
pub open spec fn key_le(x: FileInfo, y: FileInfo, key: SortKey) -> bool {
    match key {
        SortKey::Name => lex_le(encode_utf8(x.name@), encode_utf8(y.name@)),
        SortKey::Size => x.size <= y.size,
        SortKey::Time => lex_le(encode_utf8(x.modified_time@), encode_utf8(y.modified_time@)),
    }
}

/// Whether `x` and `y` tie under `key`.
pub open spec fn same_key(x: FileInfo, y: FileInfo, key: SortKey) -> bool {
    key_le(x, y, key) && key_le(y, x, key)
}

/// Any two byte strings are comparable.
pub proof fn lemma_lex_total(a: Seq<u8>, b: Seq<u8>)
    ensures
        lex_le(a, b) || lex_le(b, a),
    decreases a.len(),
{
    if a.len() > 0 && b.len() > 0 && a[0] == b[0] {
        lemma_lex_total(a.drop_first(), b.drop_first());
    }
}

/// The lexicographic order is transitive.
pub proof fn lemma_lex_transitive(a: Seq<u8>, b: Seq<u8>, c: Seq<u8>)
    requires
        lex_le(a, b),
        lex_le(b, c),
    ensures
        lex_le(a, c),
    decreases a.len(),
{
    if a.len() > 0 && b.len() > 0 && c.len() > 0 && a[0] == b[0] && b[0] == c[0] {
        lemma_lex_transitive(a.drop_first(), b.drop_first(), c.drop_first());
    }
}

/// Under every key, any two records are comparable.
pub proof fn lemma_key_total(x: FileInfo, y: FileInfo, key: SortKey)
    ensures
        key_le(x, y, key) || key_le(y, x, key),
{
    match key {
        SortKey::Name => lemma_lex_total(encode_utf8(x.name@), encode_utf8(y.name@)),
        SortKey::Size => {},
        SortKey::Time => lemma_lex_total(
            encode_utf8(x.modified_time@),
            encode_utf8(y.modified_time@),
        ),
    }
}

/// Under every key, the order of records is transitive.
pub proof fn lemma_key_transitive(x: FileInfo, y: FileInfo, z: FileInfo, key: SortKey)
    requires
        key_le(x, y, key),
        key_le(y, z, key),
    ensures
        key_le(x, z, key),
{
    match key {
        SortKey::Name => lemma_lex_transitive(
            encode_utf8(x.name@),
            encode_utf8(y.name@),
            encode_utf8(z.name@),
        ),
        SortKey::Size => {},
        SortKey::Time => lemma_lex_transitive(
            encode_utf8(x.modified_time@),
            encode_utf8(y.modified_time@),
            encode_utf8(z.modified_time@),
        ),
    }
}

/// Compares two byte strings lexicographically.
fn bytes_le(a: &[u8], b: &[u8]) -> (le: bool)
    ensures
        le == lex_le(a@, b@),
{
    let mut i: usize = 0;
    assert(a@.skip(0) =~= a@ && b@.skip(0) =~= b@);
    while i < a.len() && i < b.len()
        invariant
            i <= a.len(),
            i <= b.len(),
            lex_le(a@, b@) == lex_le(a@.skip(i as int), b@.skip(i as int)),
        decreases a.len() - i,
    {
        let x = a[i];
        let y = b[i];
        proof {
            assert(a@.skip(i as int).drop_first() =~= a@.skip(i + 1));
            assert(b@.skip(i as int).drop_first() =~= b@.skip(i + 1));
            assert(a@.skip(i as int)[0] == x);
            assert(b@.skip(i as int)[0] == y);
        }
        if x != y {
            return x < y;
        }
        i = i + 1;
    }
    i >= a.len()
}

/// Whether `x` may stand before `y` under `key`.
pub fn precedes(x: &FileInfo, y: &FileInfo, key: SortKey) -> (le: bool)
    ensures
        le == key_le(*x, *y, key),
{
    match key {
        SortKey::Name => bytes_le(x.name.as_str().as_bytes(), y.name.as_str().as_bytes()),
        SortKey::Size => x.size <= y.size,
        SortKey::Time => bytes_le(
            x.modified_time.as_str().as_bytes(),
            y.modified_time.as_str().as_bytes(),
        ),
    }
}

/// The test for tying with `r` under `key`.
pub open spec fn ties_with(r: FileInfo, key: SortKey) -> spec_fn(FileInfo) -> bool {
    |x: FileInfo| same_key(x, r, key)
}

/// The records of `s` that tie with `r` under `key`, in the order in which
/// they stand in `s`.
pub open spec fn class_of(s: Seq<FileInfo>, r: FileInfo, key: SortKey) -> Seq<FileInfo> {
    s.filter(ties_with(r, key))
}

/// Whether `s` ascends under `key`.
pub open spec fn is_sorted(s: Seq<FileInfo>, key: SortKey) -> bool {
    forall|i: int, j: int| 0 <= i < j < s.len() ==> key_le(s[i], s[j], key)
}

/// Whether `out` is the stable sort of `inp` under `key`: it ascends, and the
/// records that tie stand in `out` exactly as they stand in `inp`, none lost
/// and none added.
pub open spec fn is_stable_sort(out: Seq<FileInfo>, inp: Seq<FileInfo>, key: SortKey) -> bool {
    &&& is_sorted(out, key)
    &&& forall|r: FileInfo| #[trigger] class_of(out, r, key) == class_of(inp, r, key)
}

/// Whether `out` is `inp` arranged for a listing: stably sorted under `key`
/// and then, if `reverse` is set, reversed as a whole.
pub open spec fn is_arrangement(
    out: Seq<FileInfo>,
    inp: Seq<FileInfo>,
    key: SortKey,
    reverse: bool,
) -> bool {
    if reverse {
        is_stable_sort(out.reverse(), inp, key)
    } else {
        is_stable_sort(out, inp, key)
    }
}

/// Adding a record at the end adds it at the end of its class and of no other.
proof fn lemma_class_push(s: Seq<FileInfo>, x: FileInfo, r: FileInfo, key: SortKey)
    ensures
        class_of(s.push(x), r, key) == if same_key(x, r, key) {
            class_of(s, r, key).push(x)
        } else {
            class_of(s, r, key)
        },
{
    s.lemma_filter_push(x, ties_with(r, key));
}

/// Adding a record in front adds it in front of its class and of no other.
proof fn lemma_class_prepend(s: Seq<FileInfo>, x: FileInfo, r: FileInfo, key: SortKey)
    ensures
        class_of(seq![x] + s, r, key) == if same_key(x, r, key) {
            seq![x] + class_of(s, r, key)
        } else {
            class_of(s, r, key)
        },
{
    s.lemma_filter_prepend(x, ties_with(r, key));
    assert(Seq::<FileInfo>::empty() + class_of(s, r, key) =~= class_of(s, r, key));
}

/// A sequence in which nothing ties with `r` has an empty class of `r`.
proof fn lemma_class_none(s: Seq<FileInfo>, r: FileInfo, key: SortKey)
    requires
        forall|i: int| 0 <= i < s.len() ==> !same_key(#[trigger] s[i], r, key),
    ensures
        class_of(s, r, key) == Seq::<FileInfo>::empty(),
{
    let c = class_of(s, r, key);
    if c.len() > 0 {
        s.lemma_filter_pred(ties_with(r, key), 0);
        assert(c.contains(c[0]));
        s.lemma_filter_contains_rev(ties_with(r, key), c[0]);
        let i = choose|i: int| 0 <= i < s.len() && s[i] == c[0];
        assert(!same_key(s[i], r, key));
    }
    assert(c =~= Seq::<FileInfo>::empty());
}

/// Merges two ascending runs into one; where records tie, those of `left`
/// come first.
fn merge(left: Vec<FileInfo>, right: Vec<FileInfo>, key: SortKey) -> (out: Vec<FileInfo>)
    requires
        is_sorted(left@, key),
        is_sorted(right@, key),
    ensures
        is_sorted(out@, key),
        forall|r: FileInfo| #[trigger]
            class_of(out@, r, key) == class_of(left@, r, key) + class_of(right@, r, key),
{
    let mut left = left;
    let mut right = right;
    let ghost l0 = left@;
    let ghost r0 = right@;
    // The end of the result, last record first.
    let mut back: Vec<FileInfo> = Vec::new();
    let ghost mut tail: Seq<FileInfo> = Seq::empty();
    proof {
        assert(tail =~= back@.reverse());
        assert forall|r: FileInfo| #[trigger]
            class_of(tail, r, key) == Seq::<FileInfo>::empty() by {
            lemma_class_none(tail, r, key);
        }
        assert forall|r: FileInfo|
            class_of(left@, r, key) + class_of(right@, r, key) + #[trigger] class_of(tail, r, key)
                == class_of(l0, r, key) + class_of(r0, r, key) by {
            assert(class_of(left@, r, key) + class_of(right@, r, key) + class_of(tail, r, key)
                =~= class_of(l0, r, key) + class_of(r0, r, key));
        }
    }
    while left.len() > 0 || right.len() > 0
        invariant
            is_sorted(left@, key),
            is_sorted(right@, key),
            is_sorted(tail, key),
            tail == back@.reverse(),
            forall|i: int, j: int|
                0 <= i < left@.len() && 0 <= j < tail.len() ==> key_le(
                    #[trigger] left@[i],
                    #[trigger] tail[j],
                    key,
                ),
            forall|i: int, j: int|
                0 <= i < right@.len() && 0 <= j < tail.len() ==> key_le(
                    #[trigger] right@[i],
                    #[trigger] tail[j],
                    key,
                ),
            forall|r: FileInfo|
                class_of(left@, r, key) + class_of(right@, r, key) + #[trigger] class_of(
                    tail,
                    r,
                    key,
                ) == class_of(l0, r, key) + class_of(r0, r, key),
        decreases left@.len() + right@.len(),
    {
        let ghost lv = left@;
        let ghost rv = right@;
        let ghost old_tail = tail;
        let from_right = if left.len() == 0 {
            true
        } else if right.len() == 0 {
            false
        } else {
            precedes(&left[left.len() - 1], &right[right.len() - 1], key)
        };
        if from_right {
            let x = right.pop().unwrap();
            proof {
                tail = seq![x] + old_tail;
                assert(rv =~= right@.push(x));
                assert forall|i: int| 0 <= i < lv.len() implies key_le(lv[i], x, key) by {
                    lemma_key_total(lv[i], lv[i], key);
                    lemma_key_transitive(lv[i], lv.last(), x, key);
                }
                assert forall|r: FileInfo|
                    class_of(left@, r, key) + class_of(right@, r, key) + #[trigger] class_of(
                        tail,
                        r,
                        key,
                    ) == class_of(l0, r, key) + class_of(r0, r, key) by {
                    lemma_class_push(right@, x, r, key);
                    lemma_class_prepend(old_tail, x, r, key);
                    assert(class_of(lv, r, key) + class_of(rv, r, key) + class_of(old_tail, r, key)
                        == class_of(l0, r, key) + class_of(r0, r, key));
                    assert(class_of(left@, r, key) + class_of(right@, r, key) + class_of(
                        tail,
                        r,
                        key,
                    ) =~= class_of(lv, r, key) + class_of(rv, r, key) + class_of(
                        old_tail,
                        r,
                        key,
                    ));
                }
            }
            back.push(x);
        } else {
            let x = left.pop().unwrap();
            proof {
                tail = seq![x] + old_tail;
                assert(lv =~= left@.push(x));
                assert forall|i: int| 0 <= i < rv.len() implies key_le(rv[i], x, key) by {
                    lemma_key_total(x, rv.last(), key);
                    lemma_key_total(rv[i], rv[i], key);
                    lemma_key_transitive(rv[i], rv.last(), x, key);
                }
                assert forall|r: FileInfo|
                    class_of(left@, r, key) + class_of(right@, r, key) + #[trigger] class_of(
                        tail,
                        r,
                        key,
                    ) == class_of(l0, r, key) + class_of(r0, r, key) by {
                    lemma_class_push(left@, x, r, key);
                    lemma_class_prepend(old_tail, x, r, key);
                    if same_key(x, r, key) {
                        assert forall|i: int| 0 <= i < rv.len() implies !same_key(
                            #[trigger] rv[i],
                            r,
                            key,
                        ) by {
                            if same_key(rv[i], r, key) {
                                lemma_key_total(rv[i], rv[i], key);
                                lemma_key_transitive(x, r, rv[i], key);
                                lemma_key_transitive(x, rv[i], rv.last(), key);
                            }
                        }
                        lemma_class_none(rv, r, key);
                    }
                    assert(class_of(lv, r, key) + class_of(rv, r, key) + class_of(old_tail, r, key)
                        == class_of(l0, r, key) + class_of(r0, r, key));
                    assert(class_of(left@, r, key) + class_of(right@, r, key) + class_of(
                        tail,
                        r,
                        key,
                    ) =~= class_of(lv, r, key) + class_of(rv, r, key) + class_of(
                        old_tail,
                        r,
                        key,
                    ));
                }
            }
            back.push(x);
        }
        proof {
            assert(tail =~= back@.reverse());
            assert(is_sorted(tail, key)) by {
                assert forall|i: int, j: int| 0 <= i < j < tail.len() implies key_le(
                    tail[i],
                    tail[j],
                    key,
                ) by {
                    if i > 0 {
                        assert(tail[i] == old_tail[i - 1] && tail[j] == old_tail[j - 1]);
                    } else {
                        assert(tail[j] == old_tail[j - 1]);
                    }
                }
            }
        }
    }
    let out = reversed(back);
    proof {
        assert(out@ =~= tail);
        assert forall|r: FileInfo| #[trigger]
            class_of(out@, r, key) == class_of(l0, r, key) + class_of(r0, r, key) by {
            lemma_class_none(left@, r, key);
            lemma_class_none(right@, r, key);
            assert(class_of(left@, r, key) + class_of(right@, r, key) + class_of(tail, r, key)
                =~= class_of(tail, r, key));
        }
    }
    out
}

/// Sorts records under `key`, keeping records that tie in the order in which
/// they came.
pub fn sort_by_key(files: Vec<FileInfo>, key: SortKey) -> (out: Vec<FileInfo>)
    ensures
        is_stable_sort(out@, files@, key),
    decreases files@.len(),
{
    if files.len() <= 1 {
        return files;
    }
    let ghost whole = files@;
    let mut left = files;
    let mid = left.len() / 2;
    let right = left.split_off(mid);
    let ghost first = left@;
    let ghost second = right@;
    let left = sort_by_key(left, key);
    let right = sort_by_key(right, key);
    let out = merge(left, right, key);
    proof {
        assert(whole =~= first + second);
        assert forall|r: FileInfo| #[trigger]
            class_of(out@, r, key) == class_of(whole, r, key) by {
            Seq::filter_distributes_over_add(first, second, ties_with(r, key));
            assert(class_of(out@, r, key) == class_of(left@, r, key) + class_of(right@, r, key));
            assert(class_of(left@, r, key) == class_of(first, r, key));
            assert(class_of(right@, r, key) == class_of(second, r, key));
        }
    }
    out
}

/// Arranges records for a listing: sorts them stably under `key`, then
/// reverses the sorted sequence as a whole if `reverse` is set, so that
/// records that tie end up in the opposite of the order in which they came.
pub fn sort_files(files: Vec<FileInfo>, key: SortKey, reverse: bool) -> (out: Vec<FileInfo>)
    ensures
        is_arrangement(out@, files@, key, reverse),
{
    let sorted = sort_by_key(files, key);
    if reverse {
        let out = reversed(sorted);
        assert(out@.reverse() =~= sorted@);
        out
    } else {
        sorted
    }
}

/// Two ascending sequences with the same classes are the same sequence.
proof fn lemma_same_classes_equal(a: Seq<FileInfo>, b: Seq<FileInfo>, key: SortKey)
    requires
        is_sorted(a, key),
        is_sorted(b, key),
        forall|r: FileInfo| #[trigger] class_of(a, r, key) == class_of(b, r, key),
    ensures
        a == b,
    decreases a.len(),
{
    if a.len() == 0 {
        if b.len() > 0 {
            lemma_key_total(b[0], b[0], key);
            b.lemma_filter_contains(ties_with(b[0], key), 0);
            a.lemma_filter_len(ties_with(b[0], key));
            assert(class_of(a, b[0], key) == class_of(b, b[0], key));
        }
        assert(a =~= b);
    } else {
        let x = a.last();
        let a1 = a.drop_last();
        assert(a =~= a1.push(x));
        lemma_key_total(x, x, key);
        lemma_class_push(a1, x, x, key);
        assert(class_of(a, x, key) == class_of(b, x, key));
        b.lemma_filter_len(ties_with(x, key));
        let y = b.last();
        let b1 = b.drop_last();
        assert(b =~= b1.push(y));
        lemma_key_total(y, y, key);
        // x stands in b, so it is no later than b's last record.
        assert(class_of(b, x, key).contains(x)) by {
            assert(class_of(a1, x, key).push(x).last() == x);
        }
        b.lemma_filter_contains_rev(ties_with(x, key), x);
        let i = choose|i: int| 0 <= i < b.len() && b[i] == x;
        assert(key_le(x, y, key));
        // y stands in a, so it is no later than a's last record.
        lemma_class_push(b1, y, y, key);
        assert(class_of(a, y, key) == class_of(b, y, key));
        assert(class_of(a, y, key).contains(y)) by {
            assert(class_of(b1, y, key).push(y).last() == y);
        }
        a.lemma_filter_contains_rev(ties_with(y, key), y);
        let j = choose|j: int| 0 <= j < a.len() && a[j] == y;
        assert(key_le(y, x, key));
        // Both end the class of x, so they are the same record.
        lemma_class_push(b1, y, x, key);
        assert(class_of(b1, x, key).push(y).last() == y);
        assert(x == y);
        assert forall|r: FileInfo| #[trigger]
            class_of(a1, r, key) == class_of(b1, r, key) by {
            lemma_class_push(a1, x, r, key);
            lemma_class_push(b1, x, r, key);
            assert(class_of(a, r, key) == class_of(b, r, key));
            if same_key(x, r, key) {
                assert(class_of(a1, r, key) =~= class_of(a1, r, key).push(x).drop_last());
                assert(class_of(b1, r, key) =~= class_of(b1, r, key).push(x).drop_last());
            }
        }
        lemma_same_classes_equal(a1, b1, key);
    }
}

/// The stable sort of a sequence is unique: whatever ascends under `key` and
/// keeps tying records in their original order is the one arrangement that
/// [`sort_by_key`] returns.
pub proof fn lemma_stable_sort_unique(
    a: Seq<FileInfo>,
    b: Seq<FileInfo>,
    inp: Seq<FileInfo>,
    key: SortKey,
)
    requires
        is_stable_sort(a, inp, key),
        is_stable_sort(b, inp, key),
    ensures
        a == b,
{
    assert forall|r: FileInfo| #[trigger] class_of(a, r, key) == class_of(b, r, key) by {
        assert(class_of(a, r, key) == class_of(inp, r, key));
        assert(class_of(b, r, key) == class_of(inp, r, key));
    }
    lemma_same_classes_equal(a, b, key);
}

/// Stability: two records of the input that tie, the first standing before
/// the second, stand in that order in the stable sort too.
pub proof fn lemma_ties_keep_order(
    out: Seq<FileInfo>,
    inp: Seq<FileInfo>,
    key: SortKey,
    i: int,
    j: int,
)
    requires
        is_stable_sort(out, inp, key),
        0 <= i < j < inp.len(),
        same_key(inp[i], inp[j], key),
    ensures
        exists|m: int, n: int| 0 <= m < n < out.len() && out[m] == inp[i] && out[n] == inp[j],
{
    let r = inp[j];
    lemma_key_total(r, r, key);
    lemma_class_positions(inp, r, key, i, j);
    let c = class_of(inp, r, key);
    let (p, q) = choose|p: int, q: int| 0 <= p < q < c.len() && c[p] == inp[i] && c[q] == inp[j];
    assert(class_of(out, r, key) == c);
    lemma_class_sources(out, r, key, p, q);
}

/// Two members of a sequence that tie with `r` stand in its class of `r` in
/// the order in which they stand in the sequence.
proof fn lemma_class_positions(s: Seq<FileInfo>, r: FileInfo, key: SortKey, i: int, j: int)
    requires
        0 <= i < j < s.len(),
        same_key(s[i], r, key),
        same_key(s[j], r, key),
    ensures
        exists|p: int, q: int|
            0 <= p < q < class_of(s, r, key).len() && class_of(s, r, key)[p] == s[i] && class_of(
                s,
                r,
                key,
            )[q] == s[j],
    decreases s.len(),
{
    let s1 = s.drop_last();
    let x = s.last();
    assert(s =~= s1.push(x));
    lemma_class_push(s1, x, r, key);
    let c1 = class_of(s1, r, key);
    let c = class_of(s, r, key);
    if j == s.len() - 1 {
        s1.lemma_filter_contains(ties_with(r, key), i);
        let p = choose|p: int| 0 <= p < c1.len() && c1[p] == s1[i];
        assert(c == c1.push(x));
        assert(c[p] == s[i] && c[c1.len() as int] == s[j]);
    } else {
        lemma_class_positions(s1, r, key, i, j);
        let (p, q) = choose|p: int, q: int|
            0 <= p < q < c1.len() && c1[p] == s1[i] && c1[q] == s1[j];
        assert(c[p] == s[i] && c[q] == s[j]);
    }
}

/// Two members of the class of `r` come from two places of the sequence that
/// stand in the same order.
proof fn lemma_class_sources(s: Seq<FileInfo>, r: FileInfo, key: SortKey, p: int, q: int)
    requires
        0 <= p < q < class_of(s, r, key).len(),
    ensures
        exists|m: int, n: int|
            0 <= m < n < s.len() && s[m] == class_of(s, r, key)[p] && s[n] == class_of(s, r, key)[q],
    decreases s.len(),
{
    let c = class_of(s, r, key);
    s.lemma_filter_len(ties_with(r, key));
    let s1 = s.drop_last();
    let x = s.last();
    assert(s =~= s1.push(x));
    lemma_class_push(s1, x, r, key);
    let c1 = class_of(s1, r, key);
    if q < c1.len() {
        lemma_class_sources(s1, r, key, p, q);
        let (m, n) = choose|m: int, n: int|
            0 <= m < n < s1.len() && s1[m] == c1[p] && s1[n] == c1[q];
        assert(s[m] == c[p] && s[n] == c[q]);
    } else {
        assert(c == c1.push(x));
        assert(c1.contains(c1[p]));
        s1.lemma_filter_contains_rev(ties_with(r, key), c1[p]);
        let m = choose|m: int| 0 <= m < s1.len() && s1[m] == c1[p];
        assert(s[m] == c[p] && s[s.len() - 1] == c[q]);
    }
}

/// Reverses a vector.
pub fn reversed(v: Vec<FileInfo>) -> (out: Vec<FileInfo>)
    ensures
        out@ == v@.reverse(),
{
    let mut v = v;
    let mut out: Vec<FileInfo> = Vec::new();
    let ghost whole = v@;
    while v.len() > 0
        invariant
            v@ == whole.take(v@.len() as int),
            out@.len() + v@.len() == whole.len(),
            forall|i: int| 0 <= i < out@.len() ==> out@[i] == whole[whole.len() - 1 - i],
        decreases v@.len(),
    {
        let x = v.pop().unwrap();
        out.push(x);
    }
    assert(out@ =~= whole.reverse());
    out
}

} // verus!
