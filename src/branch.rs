//! Branch snapshots: what the repository hands over for each local branch,
//! its decoding into a record, and the listing sorted by name.
use vstd::prelude::*;
use vstd::utf8::{decode_utf8, valid_utf8};
use crate::order::{
    lemma_name_le_total, lemma_name_le_transitive, lemma_name_order_total, name_le, name_lt,
    name_precedes,
};
use crate::time::CommitTime;

verus! {

/// One local branch as read from the repository: raw bytes of the name and of
/// the tip commit's message, the commit's id as hex text and its time, and
/// whether the branch is checked out.
pub struct RawBranch {
    pub name: Vec<u8>,
    pub commit_id: String,
    pub message: Vec<u8>,
    pub time: CommitTime,
    pub head: bool,
}

/// The tip commit of a branch, as seen when the branch was enumerated.
pub struct Commit {
    pub id: String,
    pub message: String,
    pub time: CommitTime,
}

/// A decoded local branch with its tip commit.
pub struct Branch {
    pub name: String,
    pub last_commit: Commit,
    pub head: bool,
}

/// A raw branch as plain values.
pub struct RawBranchView {
    pub name: Seq<u8>,
    pub commit_id: Seq<char>,
    pub message: Seq<u8>,
    pub time: CommitTime,
    pub head: bool,
}

/// A branch record as plain values.
pub struct BranchView {
    pub name: Seq<char>,
    pub commit_id: Seq<char>,
    pub message: Seq<char>,
    pub time: CommitTime,
    pub head: bool,
}

impl View for RawBranch {
    type V = RawBranchView;

    open spec fn view(&self) -> RawBranchView {
        RawBranchView {
            name: self.name@,
            commit_id: self.commit_id@,
            message: self.message@,
            time: self.time,
            head: self.head,
        }
    }
}

impl View for Branch {
    type V = BranchView;

    open spec fn view(&self) -> BranchView {
        BranchView {
            name: self.name@,
            commit_id: self.last_commit.id@,
            message: self.last_commit.message@,
            time: self.last_commit.time,
            head: self.head,
        }
    }
}

/// The views of a sequence of raw branches.
pub open spec fn raw_views(s: Seq<RawBranch>) -> Seq<RawBranchView> {
    s.map_values(|b: RawBranch| b@)
}

/// The views of a sequence of branch records.
pub open spec fn branch_views(s: Seq<Branch>) -> Seq<BranchView> {
    s.map_values(|b: Branch| b@)
}

/// Both texts of a raw branch are valid UTF-8.
pub open spec fn decodable(r: RawBranchView) -> bool {
    valid_utf8(r.name) && valid_utf8(r.message)
}

/// Every raw branch of `s` is decodable.
pub open spec fn all_decodable(s: Seq<RawBranchView>) -> bool {
    forall|i: int| 0 <= i < s.len() ==> decodable(#[trigger] s[i])
}

/// The record that a decodable raw branch becomes.
pub open spec fn decoded(r: RawBranchView) -> BranchView {
    BranchView {
        name: decode_utf8(r.name),
        commit_id: r.commit_id,
        message: decode_utf8(r.message),
        time: r.time,
        head: r.head,
    }
}

/// `b` placed into `s` just before the first record whose name comes
/// strictly after its own; records of equal name keep their order.
pub open spec fn insert_by_name(b: BranchView, s: Seq<BranchView>) -> Seq<BranchView>
    decreases s.len(),
{
    if s.len() == 0 {
        seq![b]
    } else if name_lt(b.name, s[0].name) {
        seq![b] + s
    } else {
        seq![s[0]] + insert_by_name(b, s.drop_first())
    }
}

/// `s` sorted by name, stably.
pub open spec fn sort_by_name(s: Seq<BranchView>) -> Seq<BranchView>
    decreases s.len(),
{
    if s.len() == 0 {
        s
    } else {
        insert_by_name(s.last(), sort_by_name(s.drop_last()))
    }
}

/// The listing of a repository's raw branches: each decoded, sorted by name.
pub open spec fn listing(raws: Seq<RawBranchView>) -> Seq<BranchView> {
    sort_by_name(raws.map_values(|r: RawBranchView| decoded(r)))
}

/// Relies on `String::from_utf8`, which succeeds exactly on valid UTF-8 and
/// then holds the characters that the bytes encode.
#[verifier::external_body]
fn decode_text(bytes: &Vec<u8>) -> (r: Option<String>)
    ensures
        r is Some <==> valid_utf8(bytes@),
        r matches Some(s) ==> s@ == decode_utf8(bytes@),
{
    String::from_utf8(bytes.clone()).ok()
}

/// A branch name or commit message that is not valid UTF-8.
#[derive(Clone, Copy, Debug, PartialEq, Eq)]
pub struct EncodingError;

impl Branch {
    /// Whether this branch was checked out when it was enumerated.
    pub fn is_head(&self) -> (r: bool)
        ensures
            r == self.head,
    {
        self.head
    }
}

/// The first position of `s` whose name comes strictly after `name`, or the
/// length of `s`.
pub open spec fn is_insert_position(name: Seq<char>, s: Seq<BranchView>, p: int) -> bool {
    &&& 0 <= p <= s.len()
    &&& forall|j: int| 0 <= j < p ==> !name_lt(name, #[trigger] s[j].name)
    &&& p < s.len() ==> name_lt(name, s[p].name)
}

proof fn lemma_insert_by_name_at(b: BranchView, s: Seq<BranchView>, p: int)
    requires
        is_insert_position(b.name, s, p),
    ensures
        insert_by_name(b, s) == s.insert(p, b),
    decreases s.len(),
{
    if s.len() == 0 {
        assert(insert_by_name(b, s) =~= s.insert(p, b));
    } else if name_lt(b.name, s[0].name) {
        assert(insert_by_name(b, s) =~= s.insert(p, b));
    } else {
        let t = s.drop_first();
        assert forall|j: int| 0 <= j < p - 1 implies !name_lt(b.name, #[trigger] t[j].name) by {
            assert(t[j] == s[j + 1]);
        }
        lemma_insert_by_name_at(b, t, p - 1);
        assert(insert_by_name(b, s) =~= s.insert(p, b));
    }
}

/// Enumerates the given raw branches into records sorted by name, or fails
/// if any name or message is not valid UTF-8.
pub fn list_branches(raws: &Vec<RawBranch>) -> (r: Result<Vec<Branch>, EncodingError>)
    ensures
        r is Ok <==> all_decodable(raw_views(raws@)),
        r matches Ok(v) ==> branch_views(v@) == listing(raw_views(raws@)),
{
    let ghost dec = raw_views(raws@).map_values(|r: RawBranchView| decoded(r));
    let mut sorted: Vec<Branch> = Vec::new();
    let mut i: usize = 0;
    while i < raws.len()
        invariant
            i <= raws@.len(),
            dec == raw_views(raws@).map_values(|r: RawBranchView| decoded(r)),
            all_decodable(raw_views(raws@).take(i as int)),
            branch_views(sorted@) == sort_by_name(dec.take(i as int)),
        decreases raws@.len() - i,
    {
        let raw = &raws[i];
        assert(raw_views(raws@)[i as int] == raw@);
        let name = match decode_text(&raw.name) {
            Some(s) => s,
            None => {
                assert(!decodable(raw_views(raws@)[i as int]));
                return Err(EncodingError);
            },
        };
        let message = match decode_text(&raw.message) {
            Some(s) => s,
            None => {
                assert(!decodable(raw_views(raws@)[i as int]));
                return Err(EncodingError);
            },
        };
        let record = Branch {
            name,
            last_commit: Commit { id: raw.commit_id.clone(), message, time: raw.time },
            head: raw.head,
        };
        assert(record@ == dec[i as int]);
        let mut p: usize = 0;
        while p < sorted.len() && name_precedes(sorted[p].name.as_str(), record.name.as_str())
            invariant
                p <= sorted@.len(),
                forall|j: int| 0 <= j < p ==> !name_lt(record@.name, #[trigger] branch_views(sorted@)[j].name),
            decreases sorted@.len() - p,
        {
            assert(branch_views(sorted@)[p as int] == sorted@[p as int]@);
            p = p + 1;
        }
        proof {
            if p < sorted@.len() {
                assert(branch_views(sorted@)[p as int] == sorted@[p as int]@);
            }
            lemma_insert_by_name_at(record@, branch_views(sorted@), p as int);
            assert(dec.take(i + 1).drop_last() =~= dec.take(i as int));
            assert(dec.take(i + 1).last() == dec[i as int]);
        }
        let ghost before = sorted@;
        sorted.insert(p, record);
        assert(branch_views(sorted@) =~= branch_views(before).insert(p as int, dec[i as int]));
        assert forall|k: int| 0 <= k < i + 1 implies decodable(#[trigger] raw_views(raws@).take(i + 1)[k]) by {
            if k < i {
                assert(raw_views(raws@).take(i as int)[k] == raw_views(raws@).take(i + 1)[k]);
            }
        }
        i = i + 1;
    }
    assert(dec.take(i as int) =~= dec);
    assert(raw_views(raws@).take(i as int) =~= raw_views(raws@));
    Ok(sorted)
}

/// The names of a sequence of records, in order.
pub open spec fn names(s: Seq<BranchView>) -> Seq<Seq<char>> {
    s.map_values(|b: BranchView| b.name)
}

/// Each record's name comes no later than the names after it.
pub open spec fn sorted_by_name(s: Seq<BranchView>) -> bool {
    forall|i: int, j: int| 0 <= i < j < s.len() ==> name_le(#[trigger] s[i].name, #[trigger] s[j].name)
}

/// Keeps the records whose name is not `name`.
pub open spec fn named_other_than(name: Seq<char>) -> spec_fn(BranchView) -> bool {
    |b: BranchView| b.name != name
}

/// Keeps the raw branches whose decoded name is not `name`.
pub open spec fn raw_named_other_than(name: Seq<char>) -> spec_fn(RawBranchView) -> bool {
    |r: RawBranchView| decode_utf8(r.name) != name
}

proof fn lemma_insert_by_name_is_insert(b: BranchView, s: Seq<BranchView>) -> (p: int)
    ensures
        0 <= p <= s.len(),
        insert_by_name(b, s) == s.insert(p, b),
    decreases s.len(),
{
    if s.len() == 0 {
        assert(insert_by_name(b, s) =~= s.insert(0, b));
        0
    } else if name_lt(b.name, s[0].name) {
        assert(insert_by_name(b, s) =~= s.insert(0, b));
        0
    } else {
        let q = lemma_insert_by_name_is_insert(b, s.drop_first());
        assert(insert_by_name(b, s) =~= s.insert(q + 1, b));
        q + 1
    }
}

proof fn lemma_insert_keeps_sorted(b: BranchView, s: Seq<BranchView>)
    requires
        sorted_by_name(s),
    ensures
        sorted_by_name(insert_by_name(b, s)),
    decreases s.len(),
{
    if s.len() == 0 {
    } else if name_lt(b.name, s[0].name) {
        lemma_name_le_total(b.name, s[0].name);
        let t = insert_by_name(b, s);
        assert forall|i: int, j: int| 0 <= i < j < t.len() implies name_le(#[trigger] t[i].name, #[trigger] t[j].name) by {
            if i == 0 && j > 1 {
                lemma_name_le_transitive(b.name, s[0].name, s[j - 1].name);
            }
        }
    } else {
        let rest = s.drop_first();
        lemma_insert_keeps_sorted(b, rest);
        let p = lemma_insert_by_name_is_insert(b, rest);
        lemma_name_le_total(b.name, s[0].name);
        let t = insert_by_name(b, s);
        let u = insert_by_name(b, rest);
        assert(t == seq![s[0]] + u);
        assert forall|i: int, j: int| 0 <= i < j < t.len() implies name_le(#[trigger] t[i].name, #[trigger] t[j].name) by {
            if i == 0 {
                let k = j - 1;
                if k < p {
                    assert(u[k] == rest[k]);
                } else if k > p {
                    assert(u[k] == rest[k - 1]);
                }
            } else {
                assert(t[i] == u[i - 1] && t[j] == u[j - 1]);
            }
        }
    }
}

proof fn lemma_insert_names_multiset(b: BranchView, s: Seq<BranchView>)
    ensures
        names(insert_by_name(b, s)).to_multiset() == names(s).to_multiset().insert(b.name),
{
    let p = lemma_insert_by_name_is_insert(b, s);
    assert(names(s.insert(p, b)) =~= names(s).insert(p, b.name));
    vstd::seq_lib::to_multiset_insert(names(s), p, b.name);
}

/// Sorting by name yields names in listing order, and the same names.
proof fn lemma_sort_by_name(d: Seq<BranchView>)
    ensures
        sorted_by_name(sort_by_name(d)),
        names(sort_by_name(d)).to_multiset() == names(d).to_multiset(),
    decreases d.len(),
{
    if d.len() == 0 {
    } else {
        let rest = d.drop_last();
        lemma_sort_by_name(rest);
        lemma_insert_keeps_sorted(d.last(), sort_by_name(rest));
        lemma_insert_names_multiset(d.last(), sort_by_name(rest));
        assert(names(d) =~= names(rest).push(d.last().name));
        vstd::seq_lib::to_multiset_build(names(rest), d.last().name);
    }
}

/// The names that a listing shows, in the order shown, are the branches'
/// names in lexicographic order.
pub proof fn law_listing_in_name_order(raws: Seq<RawBranchView>)
    ensures
        names(listing(raws)) == names(raws.map_values(|r: RawBranchView| decoded(r))).sort_by(
            |a: Seq<char>, b: Seq<char>| name_le(a, b),
        ),
{
    let d = raws.map_values(|r: RawBranchView| decoded(r));
    let leq = |a: Seq<char>, b: Seq<char>| name_le(a, b);
    lemma_name_order_total();
    lemma_sort_by_name(d);
    names(d).lemma_sort_by_ensures(leq);
    let x = names(sort_by_name(d));
    assert forall|i: int, j: int| 0 <= i < j < x.len() implies #[trigger] leq(x[i], x[j]) by {
        assert(x[i] == sort_by_name(d)[i].name && x[j] == sort_by_name(d)[j].name);
    }
    vstd::seq_lib::lemma_sorted_unique(x, names(d).sort_by(leq), leq);
}

proof fn lemma_insert_filter(b: BranchView, s: Seq<BranchView>, name: Seq<char>)
    requires
        sorted_by_name(s),
    ensures
        insert_by_name(b, s).filter(named_other_than(name)) == if b.name != name {
            insert_by_name(b, s.filter(named_other_than(name)))
        } else {
            s.filter(named_other_than(name))
        },
    decreases s.len(),
{
    let keep = named_other_than(name);
    broadcast use Seq::lemma_filter_prepend;

    if s.len() == 0 {
        assert(seq![b] =~= seq![b] + s);
        assert(s.filter(keep) =~= s);
    } else if name_lt(b.name, s[0].name) {
        assert(insert_by_name(b, s) == seq![b] + s);
        let f = s.filter(keep);
        if b.name != name && f.len() > 0 {
            assert(f.contains(f[0]));
            s.lemma_filter_contains_rev(keep, f[0]);
            let k = choose|k: int| 0 <= k < s.len() && s[k] == f[0];
            if k > 0 {
                if name_le(f[0].name, b.name) {
                    lemma_name_le_transitive(s[0].name, f[0].name, b.name);
                }
            }
        }
    } else {
        let rest = s.drop_first();
        assert(s == seq![s[0]] + rest);
        lemma_insert_filter(b, rest, name);
        assert(insert_by_name(b, s) == seq![s[0]] + insert_by_name(b, rest));
        if b.name != name && s[0].name != name {
            let f = seq![s[0]] + rest.filter(keep);
            assert(f[0] == s[0]);
            assert(f.drop_first() =~= rest.filter(keep));
        }
    }
}

proof fn lemma_sort_filter(d: Seq<BranchView>, name: Seq<char>)
    ensures
        sort_by_name(d.filter(named_other_than(name))) == sort_by_name(d).filter(
            named_other_than(name),
        ),
    decreases d.len(),
{
    let keep = named_other_than(name);
    broadcast use Seq::lemma_filter_len;

    if d.len() == 0 {
        assert(d.filter(keep) =~= d);
    } else {
        let rest = d.drop_last();
        assert(d =~= rest.push(d.last()));
        rest.lemma_filter_push(d.last(), keep);
        lemma_sort_filter(rest, name);
        lemma_sort_by_name(rest);
        lemma_insert_filter(d.last(), sort_by_name(rest), name);
        if keep(d.last()) {
            let f = d.filter(keep);
            assert(f.drop_last() =~= rest.filter(keep));
        }
    }
}

proof fn lemma_decode_filter(raws: Seq<RawBranchView>, name: Seq<char>)
    ensures
        raws.filter(raw_named_other_than(name)).map_values(|r: RawBranchView| decoded(r))
            == raws.map_values(|r: RawBranchView| decoded(r)).filter(named_other_than(name)),
    decreases raws.len(),
{
    let q = raw_named_other_than(name);
    let keep = named_other_than(name);
    let dec = |r: RawBranchView| decoded(r);
    broadcast use Seq::lemma_filter_len;

    if raws.len() == 0 {
        assert(raws.filter(q).map_values(dec) =~= raws.map_values(dec).filter(keep));
    } else {
        let rest = raws.drop_last();
        lemma_decode_filter(rest, name);
        assert(raws =~= rest.push(raws.last()));
        rest.lemma_filter_push(raws.last(), q);
        assert(raws.map_values(dec) =~= rest.map_values(dec).push(decoded(raws.last())));
        rest.map_values(dec).lemma_filter_push(decoded(raws.last()), keep);
        if q(raws.last()) {
            assert(rest.filter(q).push(raws.last()).map_values(dec) =~= rest.filter(q).map_values(dec).push(
                decoded(raws.last()),
            ));
        }
    }
}

/// Deleting the branch named `name` removes exactly the records of that name
/// from the next listing; every other record stays as it was, in order.
pub proof fn law_delete_removes_only_named(raws: Seq<RawBranchView>, name: Seq<char>)
    ensures
        listing(raws.filter(raw_named_other_than(name))) == listing(raws).filter(
            named_other_than(name),
        ),
{
    lemma_decode_filter(raws, name);
    lemma_sort_filter(raws.map_values(|r: RawBranchView| decoded(r)), name);
}

/// At most one branch of `s` is checked out.
pub open spec fn at_most_one_head(s: Seq<BranchView>) -> bool {
    forall|i: int, j: int| 0 <= i < s.len() && 0 <= j < s.len() && #[trigger] s[i].head && #[trigger] s[j].head ==> i == j
}

proof fn lemma_sort_heads(d: Seq<BranchView>)
    requires
        at_most_one_head(d),
    ensures
        at_most_one_head(sort_by_name(d)),
        forall|k: int| 0 <= k < sort_by_name(d).len() && #[trigger] sort_by_name(d)[k].head ==> exists|j: int|
            0 <= j < d.len() && #[trigger] d[j].head,
        sort_by_name(d).len() == d.len(),
    decreases d.len(),
{
    if d.len() > 0 {
        let rest = d.drop_last();
        let b = d.last();
        assert forall|i: int, j: int| 0 <= i < rest.len() && 0 <= j < rest.len() && #[trigger] rest[i].head && #[trigger] rest[j].head implies i == j by {
            assert(d[i] == rest[i] && d[j] == rest[j]);
        }
        lemma_sort_heads(rest);
        let s = sort_by_name(rest);
        let p = lemma_insert_by_name_is_insert(b, s);
        let t = s.insert(p, b);
        assert(sort_by_name(d) == t);
        if b.head {
            assert forall|k: int| 0 <= k < s.len() implies !(#[trigger] s[k].head) by {
                if s[k].head {
                    let j = choose|j: int| 0 <= j < rest.len() && #[trigger] rest[j].head;
                    assert(d[j] == rest[j]);
                    assert(d[d.len() - 1] == b);
                }
            }
        }
        assert forall|i: int, j: int| 0 <= i < t.len() && 0 <= j < t.len() && #[trigger] t[i].head && #[trigger] t[j].head implies i == j by {
            if i != p {
                let ii = if i < p { i } else { i - 1 };
                assert(t[i] == s[ii]);
            }
            if j != p {
                let jj = if j < p { j } else { j - 1 };
                assert(t[j] == s[jj]);
            }
        }
        assert forall|k: int| 0 <= k < t.len() && #[trigger] t[k].head implies exists|j: int|
            0 <= j < d.len() && #[trigger] d[j].head by {
            if k == p {
                assert(d[d.len() - 1].head);
            } else {
                let kk = if k < p { k } else { k - 1 };
                assert(t[k] == s[kk]);
                let j = choose|j: int| 0 <= j < rest.len() && #[trigger] rest[j].head;
                assert(d[j] == rest[j]);
            }
        }
    }
}

/// A listing of branches of which at most one is checked out has at most one
/// checked-out record, and one record per branch.
pub proof fn lemma_listing_heads(raws: Seq<RawBranchView>)
    requires
        forall|i: int, j: int|
            0 <= i < raws.len() && 0 <= j < raws.len() && #[trigger] raws[i].head && #[trigger] raws[j].head ==> i == j,
    ensures
        at_most_one_head(listing(raws)),
        listing(raws).len() == raws.len(),
{
    let d = raws.map_values(|r: RawBranchView| decoded(r));
    assert forall|i: int, j: int| 0 <= i < d.len() && 0 <= j < d.len() && #[trigger] d[i].head && #[trigger] d[j].head implies i == j by {
        assert(raws[i].head && raws[j].head);
    }
    lemma_sort_heads(d);
}

} // verus!
