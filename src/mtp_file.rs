use vstd::prelude::*;
use crate::file_type::MtpFileType;
use crate::text::{
    name_lt, str_less, lemma_name_lt_irreflexive, lemma_name_lt_transitive, lemma_name_lt_total,
};

verus! {

/// A media file found on the device.
#[derive(Debug)]
pub struct MtpFile {
    /// The file's own name.
    pub name: String,
    /// The names of its ancestors and its own, joined by `/`.
    pub path: String,
    pub file_type: MtpFileType,
    /// Its size in bytes.
    pub size: u64,
    /// The caller's reference to the device object, handed back when the
    /// file is to be read.
    pub object: usize,
}

/// Whether `a` may come before `b` in a run: by type rank, then by name.
pub open spec fn copy_before_eq(a: MtpFile, b: MtpFile) -> bool {
    ||| a.file_type.spec_copy_order() < b.file_type.spec_copy_order()
    ||| (a.file_type.spec_copy_order() == b.file_type.spec_copy_order() && !name_lt(b.name@, a.name@))
}

/// Every file comes no later than those after it.
pub open spec fn is_sorted(s: Seq<MtpFile>) -> bool {
    forall|i: int, j: int| 0 <= i < j < s.len() ==> copy_before_eq(#[trigger] s[i], #[trigger] s[j])
}

/// `x` placed after the leading files that may come before it.
pub open spec fn insert_in_order(s: Seq<MtpFile>, x: MtpFile) -> Seq<MtpFile>
    decreases s.len(),
{
    if s.len() == 0 {
        seq![x]
    } else if copy_before_eq(s[0], x) {
        seq![s[0]] + insert_in_order(s.drop_first(), x)
    } else {
        seq![x] + s
    }
}

/// The listing in run order; files of equal rank and name keep their order.
pub open spec fn sorted_listing(s: Seq<MtpFile>) -> Seq<MtpFile>
    decreases s.len(),
{
    if s.len() == 0 {
        s
    } else {
        insert_in_order(sorted_listing(s.drop_last()), s.last())
    }
}

proof fn lemma_before_eq_total(a: MtpFile, b: MtpFile)
    ensures
        copy_before_eq(a, b) || copy_before_eq(b, a),
{
    if name_lt(a.name@, b.name@) && name_lt(b.name@, a.name@) {
        lemma_name_lt_transitive(a.name@, b.name@, a.name@);
        lemma_name_lt_irreflexive(a.name@);
    }
}

proof fn lemma_before_eq_transitive(a: MtpFile, b: MtpFile, c: MtpFile)
    requires
        copy_before_eq(a, b),
        copy_before_eq(b, c),
    ensures
        copy_before_eq(a, c),
{
    if a.file_type.spec_copy_order() == c.file_type.spec_copy_order() {
        if name_lt(c.name@, a.name@) {
            lemma_name_lt_total(a.name@, b.name@);
            lemma_name_lt_total(b.name@, c.name@);
            if name_lt(c.name@, b.name@) {
                lemma_name_lt_transitive(c.name@, b.name@, a.name@);
            } else {
                lemma_name_lt_transitive(b.name@, c.name@, a.name@);
                lemma_name_lt_irreflexive(b.name@);
            }
        }
    }
}

/// Where the scan stops, the insertion happens.
proof fn lemma_insert_at(s: Seq<MtpFile>, x: MtpFile, pos: int)
    requires
        0 <= pos <= s.len(),
        forall|k: int| 0 <= k < pos ==> copy_before_eq(#[trigger] s[k], x),
        pos == s.len() || !copy_before_eq(s[pos], x),
    ensures
        insert_in_order(s, x) == s.insert(pos, x),
    decreases s.len(),
{
    if s.len() > 0 && pos > 0 {
        assert forall|k: int| 0 <= k < pos - 1 implies copy_before_eq(
            #[trigger] s.drop_first()[k],
            x,
        ) by {
            assert(s.drop_first()[k] == s[k + 1]);
        }
        lemma_insert_at(s.drop_first(), x, pos - 1);
        assert(seq![s[0]] + s.drop_first().insert(pos - 1, x) == s.insert(pos, x));
    } else if s.len() > 0 {
        assert(seq![x] + s == s.insert(0, x));
    } else {
        assert(seq![x] == s.insert(0, x));
    }
}

proof fn lemma_insert_multiset(s: Seq<MtpFile>, x: MtpFile)
    ensures
        insert_in_order(s, x).to_multiset() == s.to_multiset().insert(x),
    decreases s.len(),
{
    broadcast use vstd::seq_lib::group_to_multiset_ensures;
    if s.len() > 0 {
        lemma_insert_multiset(s.drop_first(), x);
        if copy_before_eq(s[0], x) {
            vstd::seq_lib::lemma_multiset_commutative(seq![s[0]], insert_in_order(s.drop_first(), x));
            vstd::seq_lib::lemma_multiset_commutative(seq![s[0]], s.drop_first());
            assert(seq![s[0]] + s.drop_first() == s);
        } else {
            vstd::seq_lib::lemma_multiset_commutative(seq![x], s);
        }
    }
}

proof fn lemma_insert_sorted(s: Seq<MtpFile>, x: MtpFile)
    requires
        is_sorted(s),
    ensures
        is_sorted(insert_in_order(s, x)),
    decreases s.len(),
{
    if s.len() > 0 {
        let t = insert_in_order(s, x);
        if copy_before_eq(s[0], x) {
            let rest = s.drop_first();
            lemma_insert_sorted(rest, x);
            lemma_insert_multiset(rest, x);
            let r = insert_in_order(rest, x);
            assert forall|j: int| 0 <= j < r.len() implies copy_before_eq(s[0], #[trigger] r[j]) by {
                vstd::seq_lib::to_multiset_contains(r, r[j]);
                assert(r.contains(r[j]));
                assert(rest.to_multiset().insert(x).count(r[j]) > 0);
                if r[j] != x {
                    assert(rest.to_multiset().count(r[j]) > 0);
                    vstd::seq_lib::to_multiset_contains(rest, r[j]);
                    let k = choose|k: int| 0 <= k < rest.len() && rest[k] == r[j];
                    assert(s[k + 1] == rest[k]);
                }
            }
            assert forall|i: int, j: int| 0 <= i < j < t.len() implies copy_before_eq(
                #[trigger] t[i],
                #[trigger] t[j],
            ) by {
                if i == 0 {
                    assert(t[j] == r[j - 1]);
                } else {
                    assert(t[i] == r[i - 1] && t[j] == r[j - 1]);
                }
            }
        } else {
            lemma_before_eq_total(s[0], x);
            assert forall|i: int, j: int| 0 <= i < j < t.len() implies copy_before_eq(
                #[trigger] t[i],
                #[trigger] t[j],
            ) by {
                if i == 0 {
                    if j > 1 {
                        assert(copy_before_eq(s[0], s[j - 1]));
                        lemma_before_eq_transitive(x, s[0], s[j - 1]);
                    }
                } else {
                    assert(t[i] == s[i - 1] && t[j] == s[j - 1]);
                }
            }
        }
    }
}

/// Inserting a file that no file of a listing comes after appends it.
proof fn lemma_insert_last(s: Seq<MtpFile>, x: MtpFile)
    requires
        forall|k: int| 0 <= k < s.len() ==> copy_before_eq(#[trigger] s[k], x),
    ensures
        insert_in_order(s, x) == s.push(x),
{
    lemma_insert_at(s, x, s.len() as int);
    assert(s.insert(s.len() as int, x) == s.push(x));
}

/// A sorted listing lies in run order, holds the same files, and is left
/// as it is by sorting it again.
pub proof fn lemma_sorted_listing(s: Seq<MtpFile>)
    ensures
        is_sorted(sorted_listing(s)),
        sorted_listing(s).to_multiset() == s.to_multiset(),
        is_sorted(s) ==> sorted_listing(s) == s,
    decreases s.len(),
{
    broadcast use vstd::seq_lib::group_to_multiset_ensures;
    if s.len() > 0 {
        let init = s.drop_last();
        lemma_sorted_listing(init);
        lemma_insert_sorted(sorted_listing(init), s.last());
        lemma_insert_multiset(sorted_listing(init), s.last());
        assert(init.push(s.last()) == s);
        if is_sorted(s) {
            assert(is_sorted(init)) by {
                assert forall|i: int, j: int| 0 <= i < j < init.len() implies copy_before_eq(
                    #[trigger] init[i],
                    #[trigger] init[j],
                ) by {
                    assert(init[i] == s[i] && init[j] == s[j]);
                }
            }
            assert forall|k: int| 0 <= k < init.len() implies copy_before_eq(
                #[trigger] init[k],
                s.last(),
            ) by {
                assert(init[k] == s[k]);
            }
            lemma_insert_last(init, s.last());
        }
    }
}

/// Sorting is idempotent: a listing sorted twice equals the listing sorted once.
pub proof fn lemma_sort_idempotent(s: Seq<MtpFile>)
    ensures
        sorted_listing(sorted_listing(s)) == sorted_listing(s),
{
    lemma_sorted_listing(s);
    lemma_sorted_listing(sorted_listing(s));
}

/// Files of equal type rank and equal name: the sort cannot tell them apart.
pub open spec fn same_key(a: MtpFile, b: MtpFile) -> bool {
    a.file_type.spec_copy_order() == b.file_type.spec_copy_order() && a.name@ == b.name@
}

proof fn lemma_filter_none(t: Seq<MtpFile>, p: spec_fn(MtpFile) -> bool)
    requires
        forall|k: int| 0 <= k < t.len() ==> !p(#[trigger] t[k]),
    ensures
        t.filter(p) == Seq::<MtpFile>::empty(),
    decreases t.len(),
{
    reveal(Seq::filter);
    if t.len() > 0 {
        lemma_filter_none(t.drop_last(), p);
    }
}

proof fn lemma_filter_single(a: MtpFile, p: spec_fn(MtpFile) -> bool)
    ensures
        seq![a].filter(p) == if p(a) { seq![a] } else { Seq::<MtpFile>::empty() },
{
    reveal(Seq::filter);
    assert(seq![a].drop_last() == Seq::<MtpFile>::empty());
    assert(Seq::<MtpFile>::empty().filter(p) == Seq::<MtpFile>::empty());
    assert(seq![a].last() == a);
    assert(Seq::<MtpFile>::empty().push(a) == seq![a]);
}

proof fn lemma_insert_filter(t: Seq<MtpFile>, y: MtpFile, x: MtpFile)
    requires
        is_sorted(t),
    ensures
        insert_in_order(t, y).filter(|z: MtpFile| same_key(z, x)) == if same_key(y, x) {
            t.filter(|z: MtpFile| same_key(z, x)).push(y)
        } else {
            t.filter(|z: MtpFile| same_key(z, x))
        },
    decreases t.len(),
{
    let p = |z: MtpFile| same_key(z, x);
    broadcast use Seq::filter_distributes_over_add;
    lemma_filter_single(y, p);
    if t.len() == 0 {
        reveal(Seq::filter);
        assert(Seq::<MtpFile>::empty().push(y) == seq![y]);
    } else {
        let rest = t.drop_first();
        assert(seq![t[0]] + rest == t);
        lemma_filter_single(t[0], p);
        if copy_before_eq(t[0], y) {
            assert(is_sorted(rest)) by {
                assert forall|i: int, j: int| 0 <= i < j < rest.len() implies copy_before_eq(
                    #[trigger] rest[i],
                    #[trigger] rest[j],
                ) by {
                    assert(rest[i] == t[i + 1] && rest[j] == t[j + 1]);
                }
            }
            lemma_insert_filter(rest, y, x);
            if same_key(y, x) {
                assert(seq![t[0]].filter(p) + rest.filter(p).push(y) == (seq![t[0]].filter(p)
                    + rest.filter(p)).push(y));
            }
        } else if same_key(y, x) {
            assert forall|k: int| 0 <= k < t.len() implies !p(#[trigger] t[k]) by {
                if p(t[k]) {
                    lemma_name_lt_irreflexive(y.name@);
                    assert(copy_before_eq(t[k], y));
                    if k > 0 {
                        assert(copy_before_eq(t[0], t[k]));
                        lemma_before_eq_transitive(t[0], t[k], y);
                    }
                }
            }
            lemma_filter_none(t, p);
            assert(seq![y] + t == insert_in_order(t, y));
            assert(seq![y] == Seq::<MtpFile>::empty().push(y));
        }
    }
}

/// The sort is stable: the files that share a type rank and a name come out
/// in the order in which they came in.
pub proof fn lemma_sort_stable(s: Seq<MtpFile>, x: MtpFile)
    ensures
        sorted_listing(s).filter(|z: MtpFile| same_key(z, x)) == s.filter(|z: MtpFile| same_key(z, x)),
    decreases s.len(),
{
    if s.len() > 0 {
        lemma_sort_stable(s.drop_last(), x);
        lemma_sorted_listing(s.drop_last());
        lemma_insert_filter(sorted_listing(s.drop_last()), s.last(), x);
        reveal(Seq::filter);
    }
}

/// Whether `a` may come before `b` in a run.
fn file_before_eq(a: &MtpFile, b: &MtpFile) -> (r: bool)
    ensures
        r == copy_before_eq(*a, *b),
{
    let oa = a.file_type.copy_order();
    let ob = b.file_type.copy_order();
    oa < ob || (oa == ob && !str_less(b.name.as_str(), a.name.as_str()))
}

/// Puts a listing in run order: by type rank, images first, then by name;
/// files that agree on both keep their order.
pub fn sort_files(files: &mut Vec<MtpFile>)
    ensures
        final(files)@ == sorted_listing(old(files)@),
        is_sorted(final(files)@),
        final(files)@.to_multiset() == old(files)@.to_multiset(),
{
    let ghost orig = files@;
    let mut input: Vec<MtpFile> = Vec::new();
    std::mem::swap(files, &mut input);
    let n = input.len();
    let mut i: usize = 0;
    assert(orig.subrange(0, 0) == Seq::<MtpFile>::empty());
    assert(orig.subrange(0, n as int) == orig);
    while i < n
        invariant
            n == orig.len(),
            i <= n,
            input@ == orig.subrange(i as int, n as int),
            files@ == sorted_listing(orig.subrange(0, i as int)),
        decreases n - i,
    {
        let x = input.remove(0);
        let mut pos: usize = 0;
        while pos < files.len() && file_before_eq(&files[pos], &x)
            invariant
                pos <= files@.len(),
                forall|k: int| 0 <= k < pos ==> copy_before_eq(#[trigger] files@[k], x),
            decreases files@.len() - pos,
        {
            pos = pos + 1;
        }
        proof {
            lemma_insert_at(files@, x, pos as int);
            assert(orig.subrange(0, i + 1).drop_last() == orig.subrange(0, i as int));
            assert(orig.subrange(0, i + 1).last() == x);
        }
        files.insert(pos, x);
        assert(input@ == orig.subrange(i + 1, n as int));
        i = i + 1;
    }
    proof {
        lemma_sorted_listing(orig);
    }
}

/// The number of files of type `t`.
pub open spec fn count_of_type(files: Seq<MtpFile>, t: MtpFileType) -> int
    decreases files.len(),
{
    if files.len() == 0 {
        0
    } else {
        count_of_type(files.drop_last(), t) + if files.last().file_type == t { 1int } else { 0 }
    }
}

/// Counts the files of a listing that are of type `t`.
pub fn count_files_of_type(files: &Vec<MtpFile>, t: MtpFileType) -> (r: usize)
    ensures
        r == count_of_type(files@, t),
{
    let mut count: usize = 0;
    let mut i: usize = 0;
    while i < files.len()
        invariant
            i <= files@.len(),
            count == count_of_type(files@.subrange(0, i as int), t),
            count <= i,
        decreases files.len() - i,
    {
        assert(files@.subrange(0, i + 1).drop_last() == files@.subrange(0, i as int));
        if files[i].file_type == t {
            count = count + 1;
        }
        i = i + 1;
    }
    assert(files@.subrange(0, i as int) == files@);
    count
}

} // verus!
