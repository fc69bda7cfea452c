use vstd::prelude::*;

use crate::host::HostModel;
use crate::host::SshHost;
use crate::host::display_key;
use crate::host::host_matches;
use crate::strutil::str_le;
use crate::strutil::str_le_exec;
use crate::strutil::str_eq;
use crate::strutil::lemma_str_le_total;
use crate::strutil::lemma_str_le_trans;

verus! {

// ---------------------------------------------------------------------------
// Tree rows.
// ---------------------------------------------------------------------------

/// Mathematical model of one display row.
#[verifier::ext_equal]
pub enum TreeItemModel {
    Folder { name: Seq<char>, expanded: bool, children: Seq<int> },
    Host { host_index: int },
}

/// One row of the derived display tree: a folder header with the ordered
/// indices of its member hosts, or a single host.
pub enum TreeItem {
    Folder { name: String, expanded: bool, children_indices: Vec<usize> },
    Host { host_index: usize },
}

pub open spec fn idx_seq(v: Seq<usize>) -> Seq<int> {
    v.map_values(|u: usize| u as int)
}

impl View for TreeItem {
    type V = TreeItemModel;

    open spec fn view(&self) -> TreeItemModel {
        match self {
            TreeItem::Folder { name, expanded, children_indices } => TreeItemModel::Folder {
                name: name@,
                expanded: *expanded,
                children: idx_seq(children_indices@),
            },
            TreeItem::Host { host_index } => TreeItemModel::Host {
                host_index: *host_index as int,
            },
        }
    }
}

impl DeepView for TreeItem {
    type V = TreeItemModel;

    open spec fn deep_view(&self) -> TreeItemModel {
        self.view()
    }
}

// ---------------------------------------------------------------------------
// Per-folder expansion flags: an ordered association list where the first
// entry for a name wins, and a name without an entry counts as expanded.
// ---------------------------------------------------------------------------

pub open spec fn flag_lookup(flags: Seq<(Seq<char>, bool)>, name: Seq<char>) -> bool
    decreases flags.len(),
{
    if flags.len() == 0 {
        true
    } else if flags[0].0 == name {
        flags[0].1
    } else {
        flag_lookup(flags.drop_first(), name)
    }
}

/// The total expansion map an association list denotes.
pub open spec fn flags_map(flags: Seq<(Seq<char>, bool)>) -> Map<Seq<char>, bool> {
    Map::new(|n: Seq<char>| true, |n: Seq<char>| flag_lookup(flags, n))
}

/// Looks a folder's expansion flag up; absent folders count as expanded.
pub fn flag_get(flags: &Vec<(String, bool)>, name: &str) -> (r: bool)
    ensures
        r == flags_map(flags.deep_view())[name@],
{
    let mut i: usize = 0;
    proof {
        assert(flags.deep_view().skip(0) =~= flags.deep_view());
    }
    while i < flags.len()
        invariant
            0 <= i <= flags.len(),
            forall|j: int| 0 <= j < i ==> #[trigger] flags.deep_view()[j].0 != name@,
            flag_lookup(flags.deep_view(), name@) == flag_lookup(
                flags.deep_view().skip(i as int),
                name@,
            ),
        decreases flags.len() - i,
    {
        if str_eq(flags[i].0.as_str(), name) {
            proof {
                assert(flags.deep_view().skip(i as int)[0] == flags.deep_view()[i as int]);
            }
            return flags[i].1;
        }
        proof {
            let fs = flags.deep_view();
            assert(fs.skip(i as int)[0] == fs[i as int]);
            assert(fs.skip(i as int).drop_first() =~= fs.skip(i + 1));
        }
        i = i + 1;
    }
    proof {
        assert(flags.deep_view().skip(flags.len() as int).len() == 0);
    }
    true
}

/// Records a folder's expansion flag by shadowing any earlier entry.
pub fn flag_set(flags: &mut Vec<(String, bool)>, name: String, value: bool)
    ensures
        flags_map(final(flags).deep_view()) == flags_map(old(flags).deep_view()).insert(
            name@,
            value,
        ),
{
    let ghost old_deep = flags.deep_view();
    flags.insert(0, (name, value));
    proof {
        let new_deep = flags.deep_view();
        assert(new_deep.len() == old_deep.len() + 1);
        assert(new_deep[0].0 == name@);
        assert(new_deep[0].1 == value);
        assert(new_deep.drop_first() =~= old_deep);
        assert(flags_map(new_deep) =~= flags_map(old_deep).insert(name@, value));
    }
}

// ---------------------------------------------------------------------------
// Stable insertion sort, specified once and used for host indices (ordered
// by effective display name) and for folder names.
// ---------------------------------------------------------------------------

/// Inserts `x` after every element not above it, which keeps equal keys in
/// arrival order.
pub open spec fn insert_le<A>(leq: spec_fn(A, A) -> bool, s: Seq<A>, x: A) -> Seq<A>
    decreases s.len(),
{
    if s.len() == 0 {
        seq![x]
    } else if leq(s.last(), x) {
        s.push(x)
    } else {
        insert_le(leq, s.drop_last(), x).push(s.last())
    }
}

/// Stable insertion sort.
pub open spec fn sort_le<A>(leq: spec_fn(A, A) -> bool, s: Seq<A>) -> Seq<A>
    decreases s.len(),
{
    if s.len() == 0 {
        Seq::<A>::empty()
    } else {
        insert_le(leq, sort_le(leq, s.drop_last()), s.last())
    }
}

pub open spec fn sorted_le<A>(leq: spec_fn(A, A) -> bool, s: Seq<A>) -> bool {
    forall|i: int, j: int| 0 <= i < j < s.len() ==> leq(#[trigger] s[i], #[trigger] s[j])
}

/// `leq` is total and transitive.
pub open spec fn leq_laws<A>(leq: spec_fn(A, A) -> bool) -> bool {
    &&& forall|a: A, b: A| #[trigger] leq(a, b) || leq(b, a)
    &&& forall|a: A, b: A, c: A|
        #![trigger leq(a, b), leq(b, c)]
        leq(a, b) && leq(b, c) ==> leq(a, c)
}

proof fn lemma_insert_le_props<A>(leq: spec_fn(A, A) -> bool, s: Seq<A>, x: A)
    requires
        leq_laws(leq),
        sorted_le(leq, s),
    ensures
        sorted_le(leq, insert_le(leq, s, x)),
        insert_le(leq, s, x).to_multiset() == s.to_multiset().insert(x),
        insert_le(leq, s, x).len() == s.len() + 1,
    decreases s.len(),
{
    s.to_multiset_ensures();
    insert_le(leq, s, x).to_multiset_ensures();
    if s.len() == 0 {
        assert(insert_le(leq, s, x) =~= seq![x]);
        assert(seq![x] =~= Seq::<A>::empty().push(x));
        Seq::<A>::empty().to_multiset_ensures();
        assert(s =~= Seq::<A>::empty());
    } else if leq(s.last(), x) {
        let r = s.push(x);
        assert forall|i: int, j: int| 0 <= i < j < r.len() implies leq(
            #[trigger] r[i],
            #[trigger] r[j],
        ) by {
            if j < s.len() {
                assert(r[i] == s[i] && r[j] == s[j]);
            } else {
                assert(r[j] == x);
                if i < s.len() - 1 {
                    assert(leq(s[i], s.last()));
                }
            }
        }
    } else {
        let t = insert_le(leq, s.drop_last(), x);
        assert(s.drop_last().to_multiset().insert(s.last()) =~= s.to_multiset()) by {
            s.drop_last().to_multiset_ensures();
            assert(s.drop_last().push(s.last()) =~= s);
        }
        assert(sorted_le(leq, s.drop_last())) by {
            assert(forall|i: int| 0 <= i < s.drop_last().len() ==> s.drop_last()[i] == s[i]);
        }
        lemma_insert_le_props(leq, s.drop_last(), x);
        let r = t.push(s.last());
        t.to_multiset_ensures();
        s.drop_last().to_multiset_ensures();
        assert(r.to_multiset() =~= s.to_multiset().insert(x)) by {
            assert(r.to_multiset() == t.to_multiset().insert(s.last()));
            assert(t.to_multiset() == s.drop_last().to_multiset().insert(x));
            assert(s.to_multiset() == s.drop_last().to_multiset().insert(s.last()));
        }
        // x sits strictly below the element that was moved behind it
        assert(leq(x, s.last()));
        assert forall|i: int, j: int| 0 <= i < j < r.len() implies leq(
            #[trigger] r[i],
            #[trigger] r[j],
        ) by {
            if j < t.len() {
            } else {
                assert(r[j] == s.last());
                let e = r[i];
                assert(t.to_multiset().contains(e)) by {
                    assert(t[i] == e);
                }
                assert(s.drop_last().to_multiset().insert(x).contains(e));
                if e == x {
                } else if s.drop_last().to_multiset().contains(e) {
                    let k = choose|k: int| 0 <= k < s.drop_last().len() && s.drop_last()[k] == e;
                    assert(s[k] == e);
                    assert(leq(s[k], s.last()));
                } else {
                    assert(false);
                }
            }
        }
    }
}

pub proof fn lemma_sort_le_props<A>(leq: spec_fn(A, A) -> bool, s: Seq<A>)
    requires
        leq_laws(leq),
    ensures
        sorted_le(leq, sort_le(leq, s)),
        sort_le(leq, s).to_multiset() == s.to_multiset(),
        sort_le(leq, s).len() == s.len(),
    decreases s.len(),
{
    s.to_multiset_ensures();
    if s.len() == 0 {
        assert(sort_le(leq, s) =~= Seq::<A>::empty());
        assert(s =~= Seq::<A>::empty());
    } else {
        lemma_sort_le_props(leq, s.drop_last());
        lemma_insert_le_props(leq, sort_le(leq, s.drop_last()), s.last());
        s.drop_last().to_multiset_ensures();
        assert(s.drop_last().push(s.last()) =~= s);
        assert(s.to_multiset() == s.drop_last().to_multiset().insert(s.last()));
        assert(sort_le(leq, s).to_multiset() == sort_le(leq, s.drop_last()).to_multiset().insert(
            s.last(),
        ));
        assert(sort_le(leq, s.drop_last()).to_multiset() == s.drop_last().to_multiset());
    }
}

/// When everything at or after `p` is strictly above `x` and the element
/// just before `p` (if any) is not, insertion at `p` realizes `insert_le`.
proof fn lemma_insert_le_at<A>(leq: spec_fn(A, A) -> bool, s: Seq<A>, x: A, p: int)
    requires
        0 <= p <= s.len(),
        forall|j: int| p <= j < s.len() ==> !leq(#[trigger] s[j], x),
        p > 0 ==> leq(s[p - 1], x),
    ensures
        insert_le(leq, s, x) == s.take(p) + seq![x] + s.skip(p),
    decreases s.len(),
{
    if s.len() == 0 {
        assert(insert_le(leq, s, x) =~= s.take(p) + seq![x] + s.skip(p));
    } else if leq(s.last(), x) {
        assert(p == s.len());
        assert(s.push(x) =~= s.take(p) + seq![x] + s.skip(p));
    } else {
        assert(p < s.len());
        assert(forall|j: int| p <= j < s.drop_last().len() ==> s.drop_last()[j] == s[j]);
        assert(p > 0 ==> s.drop_last()[p - 1] == s[p - 1]);
        lemma_insert_le_at(leq, s.drop_last(), x, p);
        assert(insert_le(leq, s.drop_last(), x).push(s.last()) =~= s.take(p) + seq![x] + s.skip(
            p,
        )) by {
            assert(insert_le(leq, s.drop_last(), x) == s.drop_last().take(p) + seq![x]
                + s.drop_last().skip(p));
            assert(s.drop_last().take(p) =~= s.take(p));
        }
    }
}

// ---------------------------------------------------------------------------
// The two concrete orders.
// ---------------------------------------------------------------------------

/// Key of host index `i`: its effective display name.
pub open spec fn key_of(hosts: Seq<HostModel>, i: int) -> Seq<char> {
    display_key(hosts[i])
}

/// Host indices ordered by effective display name.
pub open spec fn key_le(hosts: Seq<HostModel>) -> spec_fn(int, int) -> bool {
    |a: int, b: int| str_le(key_of(hosts, a), key_of(hosts, b))
}

/// Folder names in lexicographic order.
pub open spec fn name_le() -> spec_fn(Seq<char>, Seq<char>) -> bool {
    |a: Seq<char>, b: Seq<char>| str_le(a, b)
}

pub proof fn lemma_key_le_laws(hosts: Seq<HostModel>)
    ensures
        leq_laws(key_le(hosts)),
{
    let leq = key_le(hosts);
    assert forall|a: int, b: int| #[trigger] leq(a, b) || leq(b, a) by {
        lemma_str_le_total(key_of(hosts, a), key_of(hosts, b));
    }
    assert forall|a: int, b: int, c: int|
        #![trigger leq(a, b), leq(b, c)]
        leq(a, b) && leq(b, c) implies leq(a, c) by {
        lemma_str_le_trans(key_of(hosts, a), key_of(hosts, b), key_of(hosts, c));
    }
}

pub proof fn lemma_name_le_laws()
    ensures
        leq_laws(name_le()),
{
    let leq = name_le();
    assert forall|a: Seq<char>, b: Seq<char>| #[trigger] leq(a, b) || leq(b, a) by {
        lemma_str_le_total(a, b);
    }
    assert forall|a: Seq<char>, b: Seq<char>, c: Seq<char>|
        #![trigger leq(a, b), leq(b, c)]
        leq(a, b) && leq(b, c) implies leq(a, c) by {
        lemma_str_le_trans(a, b, c);
    }
}

// ---------------------------------------------------------------------------
// Executable sorting.
// ---------------------------------------------------------------------------

/// Whether the display name of host `idx` is strictly above `key`.
fn key_above(hosts: &Vec<SshHost>, idx: usize, key: &str) -> (r: bool)
    requires
        idx < hosts@.len(),
    ensures
        r == !str_le(key_of(hosts.deep_view(), idx as int), key@),
{
    let key_prev = hosts[idx].get_display_name();
    proof {
        assert(hosts.deep_view()[idx as int] == hosts@[idx as int].deep_view());
    }
    !str_le_exec(key_prev.as_str(), key)
}

/// Inserts one host index into an already sorted run, keeping arrival order
/// among equal display names.
fn insert_index(hosts: &Vec<SshHost>, r: &mut Vec<usize>, x: usize)
    requires
        forall|j: int| 0 <= j < old(r)@.len() ==> #[trigger] old(r)@[j] < hosts@.len(),
        x < hosts@.len(),
    ensures
        idx_seq(final(r)@) == insert_le(key_le(hosts.deep_view()), idx_seq(old(r)@), x as int),
        forall|j: int| 0 <= j < final(r)@.len() ==> #[trigger] final(r)@[j] < hosts@.len(),
{
    let ghost hm = hosts.deep_view();
    let ghost s0 = idx_seq(r@);
    let key_x = hosts[x].get_display_name();
    proof {
        assert(hm[x as int] == hosts@[x as int].deep_view());
    }
    let mut p: usize = r.len();
    while p > 0 && key_above(hosts, r[p - 1], key_x.as_str())
        invariant
            0 <= p <= r@.len(),
            r@ == old(r)@,
            forall|j: int| 0 <= j < r@.len() ==> #[trigger] r@[j] < hosts@.len(),
            x < hosts@.len(),
            hm == hosts.deep_view(),
            s0 == idx_seq(r@),
            key_x@ == key_of(hm, x as int),
            forall|j: int| p <= j < s0.len() ==> !key_le(hm)(#[trigger] s0[j], x as int),
        decreases p,
    {
        proof {
            assert(s0[p - 1] == r@[p - 1] as int);
        }
        p = p - 1;
    }
    proof {
        if p > 0 {
            assert(s0[p - 1] == r@[p - 1] as int);
            assert(key_le(hm)(s0[p - 1], x as int));
        }
        lemma_insert_le_at(key_le(hm), s0, x as int, p as int);
    }
    r.insert(p, x);
    proof {
        assert(idx_seq(r@) =~= s0.take(p as int) + seq![x as int] + s0.skip(p as int));
    }
}

/// Sorts host indices by effective display name; ties keep arrival order.
pub fn sort_indices(hosts: &Vec<SshHost>, v: Vec<usize>) -> (r: Vec<usize>)
    requires
        forall|j: int| 0 <= j < v@.len() ==> #[trigger] v@[j] < hosts@.len(),
    ensures
        idx_seq(r@) == sort_le(key_le(hosts.deep_view()), idx_seq(v@)),
        forall|j: int| 0 <= j < r@.len() ==> #[trigger] r@[j] < hosts@.len(),
{
    let ghost hm = hosts.deep_view();
    let mut r: Vec<usize> = Vec::new();
    let mut i: usize = 0;
    while i < v.len()
        invariant
            0 <= i <= v@.len(),
            forall|j: int| 0 <= j < v@.len() ==> #[trigger] v@[j] < hosts@.len(),
            forall|j: int| 0 <= j < r@.len() ==> #[trigger] r@[j] < hosts@.len(),
            hm == hosts.deep_view(),
            idx_seq(r@) == sort_le(key_le(hm), idx_seq(v@.take(i as int))),
        decreases v@.len() - i,
    {
        let x = v[i];
        insert_index(hosts, &mut r, x);
        proof {
            assert(idx_seq(v@.take(i + 1)).drop_last() =~= idx_seq(v@.take(i as int)));
            assert(idx_seq(v@.take(i + 1)).last() == v@[i as int] as int);
            assert(idx_seq(v@.take(i + 1)).len() > 0);
        }
        i = i + 1;
    }
    proof {
        assert(idx_seq(v@.take(v@.len() as int)) =~= idx_seq(v@));
    }
    r
}

/// Inserts one folder name into an already sorted run.
fn insert_name(r: &mut Vec<String>, x: String)
    ensures
        final(r).deep_view() == insert_le(name_le(), old(r).deep_view(), x@),
{
    let ghost s0 = r.deep_view();
    let mut p: usize = r.len();
    while p > 0 && !str_le_exec(r[p - 1].as_str(), x.as_str())
        invariant
            0 <= p <= r@.len(),
            r@ == old(r)@,
            s0 == r.deep_view(),
            forall|j: int| p <= j < s0.len() ==> !name_le()(#[trigger] s0[j], x@),
        decreases p,
    {
        proof {
            assert(s0[p - 1] == r@[p - 1]@);
        }
        p = p - 1;
    }
    proof {
        if p > 0 {
            assert(s0[p - 1] == r@[p - 1]@);
            assert(name_le()(s0[p - 1], x@));
        }
        lemma_insert_le_at(name_le(), s0, x@, p as int);
    }
    r.insert(p, x);
    proof {
        assert(r.deep_view() =~= s0.take(p as int) + seq![x@] + s0.skip(p as int));
    }
}

/// Sorts folder names lexicographically.
pub fn sort_names(v: Vec<String>) -> (r: Vec<String>)
    ensures
        r.deep_view() == sort_le(name_le(), v.deep_view()),
{
    let mut r: Vec<String> = Vec::new();
    let mut i: usize = 0;
    while i < v.len()
        invariant
            0 <= i <= v@.len(),
            r.deep_view() == sort_le(name_le(), v.deep_view().take(i as int)),
        decreases v@.len() - i,
    {
        let x = v[i].clone();
        insert_name(&mut r, x);
        proof {
            assert(v.deep_view().take(i + 1).drop_last() =~= v.deep_view().take(i as int));
            assert(v.deep_view().take(i + 1).last() == v@[i as int]@);
            assert(v.deep_view().take(i + 1).len() > 0);
        }
        i = i + 1;
    }
    proof {
        assert(v.deep_view().take(v@.len() as int) =~= v.deep_view());
    }
    r
}

// ---------------------------------------------------------------------------
// Grouping hosts by folder.
// ---------------------------------------------------------------------------

/// Indices of visible hosts carrying folder `f`, in position order.
pub open spec fn members_unsorted(hosts: Seq<HostModel>, f: Seq<char>) -> Seq<int>
    decreases hosts.len(),
{
    if hosts.len() == 0 {
        Seq::<int>::empty()
    } else {
        let prefix = members_unsorted(hosts.drop_last(), f);
        if hosts.last().visible && hosts.last().folder == Some(f) {
            prefix.push(hosts.len() - 1)
        } else {
            prefix
        }
    }
}

/// Member indices of folder `f`, sorted by effective display name.
pub open spec fn members(hosts: Seq<HostModel>, f: Seq<char>) -> Seq<int> {
    sort_le(key_le(hosts), members_unsorted(hosts, f))
}

/// Indices of visible hosts without a folder, in position order.
pub open spec fn root_unsorted(hosts: Seq<HostModel>) -> Seq<int>
    decreases hosts.len(),
{
    if hosts.len() == 0 {
        Seq::<int>::empty()
    } else {
        let prefix = root_unsorted(hosts.drop_last());
        if hosts.last().visible && hosts.last().folder is None {
            prefix.push(hosts.len() - 1)
        } else {
            prefix
        }
    }
}

/// Root-level host indices, sorted by effective display name.
pub open spec fn root_members(hosts: Seq<HostModel>) -> Seq<int> {
    sort_le(key_le(hosts), root_unsorted(hosts))
}

/// Folder names of visible hosts, in order of first appearance, without
/// duplicates.
pub open spec fn folder_names_unsorted(hosts: Seq<HostModel>) -> Seq<Seq<char>>
    decreases hosts.len(),
{
    if hosts.len() == 0 {
        Seq::<Seq<char>>::empty()
    } else {
        let prefix = folder_names_unsorted(hosts.drop_last());
        match hosts.last().folder {
            Some(f) => if hosts.last().visible && !prefix.contains(f) {
                prefix.push(f)
            } else {
                prefix
            },
            None => prefix,
        }
    }
}

/// The distinct folder names of visible hosts in lexicographic order.
pub open spec fn folder_names(hosts: Seq<HostModel>) -> Seq<Seq<char>> {
    sort_le(name_le(), folder_names_unsorted(hosts))
}

/// Folder names of every host, visible or not, in order of first
/// appearance, without duplicates.
pub open spec fn all_folder_names_unsorted(hosts: Seq<HostModel>) -> Seq<Seq<char>>
    decreases hosts.len(),
{
    if hosts.len() == 0 {
        Seq::<Seq<char>>::empty()
    } else {
        let prefix = all_folder_names_unsorted(hosts.drop_last());
        match hosts.last().folder {
            Some(f) => if !prefix.contains(f) {
                prefix.push(f)
            } else {
                prefix
            },
            None => prefix,
        }
    }
}

/// The distinct folder names in use, sorted lexicographically.
pub fn collect_available_folders(hosts: &Vec<SshHost>) -> (r: Vec<String>)
    ensures
        r.deep_view() == sort_le(name_le(), all_folder_names_unsorted(hosts.deep_view())),
{
    let ghost hm = hosts.deep_view();
    let mut names: Vec<String> = Vec::new();
    let mut i: usize = 0;
    while i < hosts.len()
        invariant
            0 <= i <= hosts@.len(),
            hm == hosts.deep_view(),
            names.deep_view() == all_folder_names_unsorted(hm.take(i as int)),
        decreases hosts@.len() - i,
    {
        proof {
            assert(hm.take(i + 1).drop_last() =~= hm.take(i as int));
            assert(hm.take(i + 1).last() == hm[i as int]);
            assert(hm[i as int] == hosts@[i as int].deep_view());
        }
        match &hosts[i].folder {
            Some(f) => {
                if !names_contain(&names, f.as_str()) {
                    names.push(f.clone());
                    proof {
                        assert(names.deep_view() =~= all_folder_names_unsorted(
                            hm.take(i as int),
                        ).push(f@));
                    }
                }
            },
            None => {},
        }
        i = i + 1;
    }
    proof {
        assert(hm.take(hm.len() as int) =~= hm);
    }
    sort_names(names)
}

/// Indices of hosts matching query `q`, in position order.
pub open spec fn matching_indices(hosts: Seq<HostModel>, q: Seq<char>) -> Seq<int>
    decreases hosts.len(),
{
    if hosts.len() == 0 {
        Seq::<int>::empty()
    } else {
        let prefix = matching_indices(hosts.drop_last(), q);
        if host_matches(hosts.last(), q) {
            prefix.push(hosts.len() - 1)
        } else {
            prefix
        }
    }
}

// ---------------------------------------------------------------------------
// The derived tree.
// ---------------------------------------------------------------------------

pub open spec fn host_rows(ms: Seq<int>) -> Seq<TreeItemModel>
    decreases ms.len(),
{
    if ms.len() == 0 {
        Seq::<TreeItemModel>::empty()
    } else {
        host_rows(ms.drop_last()).push(TreeItemModel::Host { host_index: ms.last() })
    }
}

pub proof fn lemma_host_rows_index(ms: Seq<int>, l: int)
    requires
        0 <= l < ms.len(),
    ensures
        host_rows(ms).len() == ms.len(),
        host_rows(ms)[l] == (TreeItemModel::Host { host_index: ms[l] }),
    decreases ms.len(),
{
    lemma_host_rows_len(ms);
    if l < ms.len() - 1 {
        lemma_host_rows_index(ms.drop_last(), l);
    }
}

pub proof fn lemma_host_rows_len(ms: Seq<int>)
    ensures
        host_rows(ms).len() == ms.len(),
    decreases ms.len(),
{
    if ms.len() > 0 {
        lemma_host_rows_len(ms.drop_last());
    }
}

/// The rows one folder contributes: its header, then its members when it is
/// expanded.
pub open spec fn folder_section(
    hosts: Seq<HostModel>,
    fm: Map<Seq<char>, bool>,
    f: Seq<char>,
) -> Seq<TreeItemModel> {
    let ms = members(hosts, f);
    let head = seq![TreeItemModel::Folder { name: f, expanded: fm[f], children: ms }];
    if fm[f] {
        head + host_rows(ms)
    } else {
        head
    }
}

pub open spec fn folder_sections(
    hosts: Seq<HostModel>,
    fm: Map<Seq<char>, bool>,
    names: Seq<Seq<char>>,
) -> Seq<TreeItemModel>
    decreases names.len(),
{
    if names.len() == 0 {
        Seq::<TreeItemModel>::empty()
    } else {
        folder_sections(hosts, fm, names.drop_last()) + folder_section(hosts, fm, names.last())
    }
}

/// The whole display tree: with a non-empty query a flat list of matching
/// hosts; otherwise the sorted folders, each followed by its sorted members
/// when expanded, then the sorted root-level hosts.
pub open spec fn tree_spec(
    hosts: Seq<HostModel>,
    fm: Map<Seq<char>, bool>,
    q: Seq<char>,
) -> Seq<TreeItemModel> {
    if q.len() > 0 {
        host_rows(matching_indices(hosts, q))
    } else {
        folder_sections(hosts, fm, folder_names(hosts)) + host_rows(root_members(hosts))
    }
}

// ---------------------------------------------------------------------------
// Executable derivation.
// ---------------------------------------------------------------------------

/// Whether `v` holds a string with exactly the characters of `f`.
fn names_contain(v: &Vec<String>, f: &str) -> (r: bool)
    ensures
        r == v.deep_view().contains(f@),
{
    let mut i: usize = 0;
    while i < v.len()
        invariant
            0 <= i <= v@.len(),
            forall|j: int| 0 <= j < i ==> #[trigger] v.deep_view()[j] != f@,
        decreases v@.len() - i,
    {
        if str_eq(v[i].as_str(), f) {
            proof {
                assert(v.deep_view()[i as int] == f@);
            }
            return true;
        }
        i = i + 1;
    }
    proof {
        assert(!v.deep_view().contains(f@)) by {
            if v.deep_view().contains(f@) {
                let j = choose|j: int| 0 <= j < v.deep_view().len() && v.deep_view()[j] == f@;
                assert(v.deep_view()[j] != f@);
            }
        }
    }
    false
}

/// Collects the distinct folder names of visible hosts, in order of first
/// appearance.
fn collect_folder_names(hosts: &Vec<SshHost>) -> (r: Vec<String>)
    ensures
        r.deep_view() == folder_names_unsorted(hosts.deep_view()),
{
    let ghost hm = hosts.deep_view();
    let mut r: Vec<String> = Vec::new();
    let mut i: usize = 0;
    while i < hosts.len()
        invariant
            0 <= i <= hosts@.len(),
            hm == hosts.deep_view(),
            r.deep_view() == folder_names_unsorted(hm.take(i as int)),
        decreases hosts@.len() - i,
    {
        proof {
            assert(hm.take(i + 1).drop_last() =~= hm.take(i as int));
            assert(hm.take(i + 1).last() == hm[i as int]);
            assert(hm[i as int] == hosts@[i as int].deep_view());
        }
        if hosts[i].visible {
            match &hosts[i].folder {
                Some(f) => {
                    if !names_contain(&r, f.as_str()) {
                        r.push(f.clone());
                        proof {
                            assert(r.deep_view() =~= folder_names_unsorted(hm.take(i as int)).push(
                                f@,
                            ));
                        }
                    }
                },
                None => {},
            }
        }
        i = i + 1;
    }
    proof {
        assert(hm.take(hm.len() as int) =~= hm);
    }
    r
}

/// Collects the visible member indices of folder `f`, in position order.
fn collect_members(hosts: &Vec<SshHost>, f: &str) -> (r: Vec<usize>)
    ensures
        idx_seq(r@) == members_unsorted(hosts.deep_view(), f@),
        forall|j: int| 0 <= j < r@.len() ==> #[trigger] r@[j] < hosts@.len(),
{
    let ghost hm = hosts.deep_view();
    let mut r: Vec<usize> = Vec::new();
    let mut i: usize = 0;
    while i < hosts.len()
        invariant
            0 <= i <= hosts@.len(),
            hm == hosts.deep_view(),
            idx_seq(r@) == members_unsorted(hm.take(i as int), f@),
            forall|j: int| 0 <= j < r@.len() ==> #[trigger] r@[j] < hosts@.len(),
        decreases hosts@.len() - i,
    {
        proof {
            assert(hm.take(i + 1).drop_last() =~= hm.take(i as int));
            assert(hm.take(i + 1).last() == hm[i as int]);
            assert(hm[i as int] == hosts@[i as int].deep_view());
        }
        let in_folder = match &hosts[i].folder {
            Some(g) => str_eq(g.as_str(), f),
            None => false,
        };
        if hosts[i].visible && in_folder {
            r.push(i);
            proof {
                assert(idx_seq(r@) =~= members_unsorted(hm.take(i as int), f@).push(i as int));
            }
        }
        i = i + 1;
    }
    proof {
        assert(hm.take(hm.len() as int) =~= hm);
    }
    r
}

/// Collects the indices of visible hosts without a folder, in position order.
fn collect_root(hosts: &Vec<SshHost>) -> (r: Vec<usize>)
    ensures
        idx_seq(r@) == root_unsorted(hosts.deep_view()),
        forall|j: int| 0 <= j < r@.len() ==> #[trigger] r@[j] < hosts@.len(),
{
    let ghost hm = hosts.deep_view();
    let mut r: Vec<usize> = Vec::new();
    let mut i: usize = 0;
    while i < hosts.len()
        invariant
            0 <= i <= hosts@.len(),
            hm == hosts.deep_view(),
            idx_seq(r@) == root_unsorted(hm.take(i as int)),
            forall|j: int| 0 <= j < r@.len() ==> #[trigger] r@[j] < hosts@.len(),
        decreases hosts@.len() - i,
    {
        proof {
            assert(hm.take(i + 1).drop_last() =~= hm.take(i as int));
            assert(hm.take(i + 1).last() == hm[i as int]);
            assert(hm[i as int] == hosts@[i as int].deep_view());
        }
        let is_root = match &hosts[i].folder {
            Some(_) => false,
            None => true,
        };
        if hosts[i].visible && is_root {
            r.push(i);
            proof {
                assert(idx_seq(r@) =~= root_unsorted(hm.take(i as int)).push(i as int));
            }
        }
        i = i + 1;
    }
    proof {
        assert(hm.take(hm.len() as int) =~= hm);
    }
    r
}

/// Copies a list of indices.
fn copy_indices(v: &Vec<usize>) -> (r: Vec<usize>)
    ensures
        r@ == v@,
{
    let mut r: Vec<usize> = Vec::new();
    let mut i: usize = 0;
    while i < v.len()
        invariant
            0 <= i <= v@.len(),
            r@ == v@.take(i as int),
        decreases v@.len() - i,
    {
        r.push(v[i]);
        proof {
            assert(r@ =~= v@.take(i + 1));
        }
        i = i + 1;
    }
    proof {
        assert(v@.take(v@.len() as int) =~= v@);
    }
    r
}

/// Appends one host row per index in `ms`.
fn push_host_rows(items: &mut Vec<TreeItem>, ms: &Vec<usize>)
    ensures
        final(items).deep_view() == old(items).deep_view() + host_rows(idx_seq(ms@)),
        forall|n: int|
            #![trigger rows_in_bounds(n, final(items).deep_view())]
            rows_in_bounds(n, old(items).deep_view()) && (forall|jj: int|
                0 <= jj < ms@.len() ==> (#[trigger] ms@[jj] as int) < n) ==> rows_in_bounds(
                n,
                final(items).deep_view(),
            ),
{
    let ghost base = items.deep_view();
    let mut j: usize = 0;
    proof {
        assert(base + host_rows(idx_seq(ms@.take(0))) =~= base);
    }
    while j < ms.len()
        invariant
            0 <= j <= ms@.len(),
            items.deep_view() == base + host_rows(idx_seq(ms@.take(j as int))),
        decreases ms@.len() - j,
    {
        let ghost prev = items.deep_view();
        items.push(TreeItem::Host { host_index: ms[j] });
        proof {
            let row = TreeItemModel::Host { host_index: ms@[j as int] as int };
            assert(items.deep_view() =~= prev.push(row));
            let t1 = idx_seq(ms@.take(j + 1));
            assert(t1.len() == j + 1);
            assert(t1.drop_last() =~= idx_seq(ms@.take(j as int)));
            assert(t1.last() == ms@[j as int] as int);
            assert(host_rows(t1) == host_rows(t1.drop_last()).push(row));
            assert(items.deep_view() =~= base + host_rows(t1));
        }
        j = j + 1;
    }
    proof {
        assert(idx_seq(ms@.take(ms@.len() as int)) =~= idx_seq(ms@));
        assert forall|n: int|
            rows_in_bounds(n, base) && (forall|jj: int|
                0 <= jj < ms@.len() ==> (#[trigger] ms@[jj] as int) < n) implies #[trigger]
        rows_in_bounds(n, items.deep_view()) by {
            lemma_host_rows_len(idx_seq(ms@));
            assert forall|l: int| 0 <= l < items.deep_view().len() implies row_in_bounds(
                n,
                #[trigger] items.deep_view()[l],
            ) by {
                if l < base.len() {
                    assert(items.deep_view()[l] == base[l]);
                    assert(row_in_bounds(n, base[l]));
                } else {
                    lemma_host_rows_index(idx_seq(ms@), l - base.len());
                    assert(idx_seq(ms@)[l - base.len()] == ms@[l - base.len()] as int);
                }
            }
        }
    }
}

/// Every row of a well-formed tree points into the host list.
pub open spec fn row_in_bounds(n: int, row: TreeItemModel) -> bool {
    match row {
        TreeItemModel::Host { host_index } => 0 <= host_index < n,
        TreeItemModel::Folder { children, .. } => forall|j: int|
            0 <= j < children.len() ==> 0 <= #[trigger] children[j] < n,
    }
}

pub open spec fn rows_in_bounds(n: int, rows: Seq<TreeItemModel>) -> bool {
    forall|i: int| 0 <= i < rows.len() ==> row_in_bounds(n, #[trigger] rows[i])
}

/// Derives the display tree from the host list, the expansion flags and the
/// active query.
pub fn build_tree(hosts: &Vec<SshHost>, flags: &Vec<(String, bool)>, query: &str) -> (r: Vec<
    TreeItem,
>)
    ensures
        r.deep_view() == tree_spec(hosts.deep_view(), flags_map(flags.deep_view()), query@),
        rows_in_bounds(hosts@.len() as int, r.deep_view()),
{
    let ghost hm = hosts.deep_view();
    let ghost fm = flags_map(flags.deep_view());
    let mut items: Vec<TreeItem> = Vec::new();
    if !query.is_empty() {
        let mut i: usize = 0;
        while i < hosts.len()
            invariant
                0 <= i <= hosts@.len(),
                hm == hosts.deep_view(),
                query@.len() > 0,
                items.deep_view() == host_rows(matching_indices(hm.take(i as int), query@)),
                rows_in_bounds(hosts@.len() as int, items.deep_view()),
            decreases hosts@.len() - i,
        {
            proof {
                assert(hm.take(i + 1).drop_last() =~= hm.take(i as int));
                assert(hm.take(i + 1).last() == hm[i as int]);
                assert(hm[i as int] == hosts@[i as int].deep_view());
            }
            let ghost prev = items.deep_view();
            if hosts[i].matches_search(query) {
                items.push(TreeItem::Host { host_index: i });
                proof {
                    let m1 = matching_indices(hm.take(i + 1), query@);
                    assert(m1 == matching_indices(hm.take(i as int), query@).push(i as int));
                    assert(m1.drop_last() =~= matching_indices(hm.take(i as int), query@));
                    assert(m1.last() == i as int);
                    assert(m1.len() > 0);
                    assert(host_rows(m1) == host_rows(m1.drop_last()).push(
                        TreeItemModel::Host { host_index: i as int },
                    ));
                    assert(items.deep_view() =~= host_rows(m1));
                    assert forall|l: int| 0 <= l < items.deep_view().len() implies row_in_bounds(
                        hosts@.len() as int,
                        #[trigger] items.deep_view()[l],
                    ) by {
                        if l < prev.len() {
                            assert(items.deep_view()[l] == prev[l]);
                            assert(row_in_bounds(hosts@.len() as int, prev[l]));
                        }
                    }
                }
            }
            i = i + 1;
        }
        proof {
            assert(hm.take(hm.len() as int) =~= hm);
        }
        items
    } else {
        let names = sort_names(collect_folder_names(hosts));
        proof {
            assert(names.deep_view() == folder_names(hm));
        }
        let mut k: usize = 0;
        while k < names.len()
            invariant
                0 <= k <= names@.len(),
                hm == hosts.deep_view(),
                fm == flags_map(flags.deep_view()),
                names.deep_view() == folder_names(hm),
                items.deep_view() == folder_sections(hm, fm, names.deep_view().take(k as int)),
                rows_in_bounds(hosts@.len() as int, items.deep_view()),
            decreases names@.len() - k,
        {
            proof {
                assert(names.deep_view()[k as int] == names@[k as int]@);
            }
            let ms = sort_indices(hosts, collect_members(hosts, names[k].as_str()));
            proof {
                assert(idx_seq(ms@) == members(hm, names@[k as int]@));
            }
            let expanded = flag_get(flags, names[k].as_str());
            let children = copy_indices(&ms);
            let ghost before = items.deep_view();
            let name_copy = names[k].clone();
            items.push(TreeItem::Folder { name: name_copy, expanded, children_indices: children });
            proof {
                let nm = names.deep_view()[k as int];
                assert(items.deep_view() =~= before + seq![
                    TreeItemModel::Folder {
                        name: nm,
                        expanded: fm[nm],
                        children: members(hm, nm),
                    },
                ]);
            }
            if expanded {
                push_host_rows(&mut items, &ms);
            }
            proof {
                let nm = names.deep_view()[k as int];
                assert(items.deep_view() =~= folder_sections(hm, fm, names.deep_view().take(
                    k as int,
                )) + folder_section(hm, fm, nm));
                assert(names.deep_view().take(k + 1).drop_last() =~= names.deep_view().take(
                    k as int,
                ));
                assert(names.deep_view().take(k + 1).last() == nm);
                assert(names.deep_view().take(k + 1).len() > 0);
                assert(items.deep_view() =~= folder_sections(hm, fm, names.deep_view().take(
                    k + 1,
                )));
            }
            k = k + 1;
        }
        proof {
            assert(names.deep_view().take(names@.len() as int) =~= names.deep_view());
        }
        let root = sort_indices(hosts, collect_root(hosts));
        proof {
            assert(idx_seq(root@) == root_members(hm));
        }
        push_host_rows(&mut items, &root);
        proof {
            assert(items.deep_view() == tree_spec(hm, fm, query@));
        }
        items
    }
}

// ---------------------------------------------------------------------------
// Toggling one folder row in place.
// ---------------------------------------------------------------------------

pub open spec fn is_folder_row(r: TreeItemModel) -> bool {
    r is Folder
}

pub open spec fn row_name(r: TreeItemModel) -> Seq<char> {
    match r {
        TreeItemModel::Folder { name, .. } => name,
        TreeItemModel::Host { .. } => Seq::<char>::empty(),
    }
}

pub open spec fn row_expanded(r: TreeItemModel) -> bool {
    match r {
        TreeItemModel::Folder { expanded, .. } => expanded,
        TreeItemModel::Host { .. } => false,
    }
}

pub open spec fn row_children(r: TreeItemModel) -> Seq<int> {
    match r {
        TreeItemModel::Folder { children, .. } => children,
        TreeItemModel::Host { .. } => Seq::<int>::empty(),
    }
}

proof fn lemma_host_rows_all_hosts(ms: Seq<int>)
    ensures
        host_rows(ms).len() == ms.len(),
        forall|l: int| 0 <= l < ms.len() ==> !is_folder_row(#[trigger] host_rows(ms)[l]),
{
    lemma_host_rows_len(ms);
    assert forall|l: int| 0 <= l < ms.len() implies !is_folder_row(#[trigger] host_rows(ms)[l]) by {
        lemma_host_rows_index(ms, l);
    }
}

/// The folder names drawn from the host list carry no duplicates.
proof fn lemma_unsorted_names_distinct(hosts: Seq<HostModel>)
    ensures
        folder_names_unsorted(hosts).no_duplicates(),
    decreases hosts.len(),
{
    if hosts.len() > 0 {
        lemma_unsorted_names_distinct(hosts.drop_last());
        let prefix = folder_names_unsorted(hosts.drop_last());
        let full = folder_names_unsorted(hosts);
        match hosts.last().folder {
            Some(f) => {
                if hosts.last().visible && !prefix.contains(f) {
                    assert forall|i: int, j: int| 0 <= i < j < full.len() implies full[i]
                        != full[j] by {
                        if j < prefix.len() {
                        } else {
                            assert(full[j] == f);
                            assert(full[i] == prefix[i]);
                            if prefix[i] == f {
                                assert(prefix.contains(f));
                            }
                        }
                    }
                }
            },
            None => {},
        }
    }
}

pub proof fn lemma_folder_names_distinct(hosts: Seq<HostModel>)
    ensures
        folder_names(hosts).no_duplicates(),
{
    lemma_unsorted_names_distinct(hosts);
    lemma_name_le_laws();
    let u = folder_names_unsorted(hosts);
    let t = folder_names(hosts);
    lemma_sort_le_props(name_le(), u);
    u.lemma_multiset_has_no_duplicates();
    assert(forall|x: Seq<char>|
        t.to_multiset().contains(x) ==> t.to_multiset().count(x) == 1);
    t.lemma_multiset_has_no_duplicates_conv();
}

/// Folder sections only read the flags of the listed names.
proof fn lemma_sections_agree(
    hosts: Seq<HostModel>,
    fm1: Map<Seq<char>, bool>,
    fm2: Map<Seq<char>, bool>,
    names: Seq<Seq<char>>,
)
    requires
        forall|i: int| 0 <= i < names.len() ==> fm1[#[trigger] names[i]] == fm2[names[i]],
    ensures
        folder_sections(hosts, fm1, names) == folder_sections(hosts, fm2, names),
    decreases names.len(),
{
    if names.len() > 0 {
        assert(forall|i: int|
            0 <= i < names.drop_last().len() ==> names.drop_last()[i] == names[i]);
        lemma_sections_agree(hosts, fm1, fm2, names.drop_last());
        assert(names[names.len() - 1] == names.last());
        assert(fm1[names.last()] == fm2[names.last()]);
    }
}

/// Splits the folder sections around the folder row at `row` and relates
/// them to the sections computed with that folder's flag flipped.
proof fn lemma_sections_toggle(
    hosts: Seq<HostModel>,
    fm: Map<Seq<char>, bool>,
    names: Seq<Seq<char>>,
    row: int,
)
    requires
        names.no_duplicates(),
        0 <= row < folder_sections(hosts, fm, names).len(),
        is_folder_row(folder_sections(hosts, fm, names)[row]),
    ensures
        ({
            let t = folder_sections(hosts, fm, names);
            let f = row_name(t[row]);
            let e = row_expanded(t[row]);
            let ch = row_children(t[row]);
            &&& names.contains(f)
            &&& e == fm[f]
            &&& ch == members(hosts, f)
            &&& e ==> row + 1 + ch.len() <= t.len() && t.subrange(row + 1, row + 1 + ch.len())
                == host_rows(ch)
            &&& folder_sections(hosts, fm.insert(f, !e), names) == t.take(row) + seq![
                TreeItemModel::Folder { name: f, expanded: !e, children: ch },
            ] + (if e {
                Seq::<TreeItemModel>::empty()
            } else {
                host_rows(ch)
            }) + t.skip(
                row + 1 + (if e {
                    ch.len() as int
                } else {
                    0
                }),
            )
        }),
    decreases names.len(),
{
    let t = folder_sections(hosts, fm, names);
    let dl = names.drop_last();
    let ln = names.last();
    let tp = folder_sections(hosts, fm, dl);
    let sec = folder_section(hosts, fm, ln);
    let ms = members(hosts, ln);
    lemma_host_rows_all_hosts(ms);
    assert(dl.no_duplicates()) by {
        assert(forall|i: int| 0 <= i < dl.len() ==> dl[i] == names[i]);
    }
    assert(forall|i: int| 0 <= i < dl.len() ==> #[trigger] dl[i] != ln) by {
        assert(forall|i: int| 0 <= i < dl.len() ==> #[trigger] names[i] != names[names.len() - 1]);
    }
    if row < tp.len() {
        assert(t[row] == tp[row]);
        lemma_sections_toggle(hosts, fm, dl, row);
        let f = row_name(t[row]);
        let e = row_expanded(t[row]);
        let ch = row_children(t[row]);
        let fm2 = fm.insert(f, !e);
        assert(dl.contains(f));
        assert(names.contains(f)) by {
            let i = choose|i: int| 0 <= i < dl.len() && dl[i] == f;
            assert(names[i] == f);
        }
        assert(f != ln);
        assert(folder_section(hosts, fm2, ln) == sec) by {
            assert(fm2[ln] == fm[ln]);
        }
        let pos = row + 1 + (if e { ch.len() as int } else { 0 });
        assert(pos <= tp.len());
        assert(t.take(row) =~= tp.take(row));
        assert(t.skip(pos) =~= tp.skip(pos) + sec);
        if e {
            assert(t.subrange(row + 1, row + 1 + ch.len()) =~= tp.subrange(
                row + 1,
                row + 1 + ch.len(),
            ));
        }
        let mid: Seq<TreeItemModel> = if e { Seq::<TreeItemModel>::empty() } else { host_rows(ch) };
        assert(folder_sections(hosts, fm2, names) == folder_sections(hosts, fm2, dl) + sec);
        assert(folder_sections(hosts, fm2, dl) == tp.take(row) + seq![
            TreeItemModel::Folder { name: f, expanded: !e, children: ch },
        ] + mid + tp.skip(pos));
        assert(folder_sections(hosts, fm2, names) =~= t.take(row) + seq![
            TreeItemModel::Folder { name: f, expanded: !e, children: ch },
        ] + mid + t.skip(pos));
    } else {
        // the row is inside the last section, and only its header is a folder
        assert(t =~= tp + sec);
        assert(t[row] == sec[row - tp.len()]);
        let e0 = fm[ln];
        if e0 {
            assert(sec == seq![
                TreeItemModel::Folder { name: ln, expanded: e0, children: ms },
            ] + host_rows(ms));
            if row - tp.len() > 0 {
                assert(sec[row - tp.len()] == host_rows(ms)[row - tp.len() - 1]);
                assert(!is_folder_row(t[row]));
            }
        } else {
            assert(sec == seq![TreeItemModel::Folder { name: ln, expanded: e0, children: ms }]);
        }
        assert(row == tp.len());
        assert(t[row] == (TreeItemModel::Folder { name: ln, expanded: e0, children: ms }));
        let f = row_name(t[row]);
        let e = row_expanded(t[row]);
        let ch = row_children(t[row]);
        assert(f == ln && e == e0 && ch == ms);
        assert(names.contains(f)) by {
            assert(names[names.len() - 1] == ln);
        }
        let fm2 = fm.insert(f, !e);
        assert(folder_sections(hosts, fm2, dl) == tp) by {
            assert(forall|i: int| 0 <= i < dl.len() ==> fm2[#[trigger] dl[i]] == fm[dl[i]]);
            lemma_sections_agree(hosts, fm2, fm, dl);
        }
        assert(folder_sections(hosts, fm2, names) == tp + folder_section(hosts, fm2, ln));
        assert(fm2[ln] == !e0);
        let pos = row + 1 + (if e { ch.len() as int } else { 0 });
        if e {
            assert(t.len() == tp.len() + 1 + ms.len());
            assert(pos == t.len());
            assert(t.subrange(row + 1, row + 1 + ch.len()) =~= host_rows(ms));
            assert(folder_section(hosts, fm2, ln) == seq![
                TreeItemModel::Folder { name: ln, expanded: !e0, children: ms },
            ]);
            assert(folder_sections(hosts, fm2, names) =~= t.take(row) + seq![
                TreeItemModel::Folder { name: f, expanded: !e, children: ch },
            ] + Seq::<TreeItemModel>::empty() + t.skip(pos));
        } else {
            assert(pos == t.len());
            assert(folder_section(hosts, fm2, ln) == seq![
                TreeItemModel::Folder { name: ln, expanded: !e0, children: ms },
            ] + host_rows(ms));
            assert(folder_sections(hosts, fm2, names) =~= t.take(row) + seq![
                TreeItemModel::Folder { name: f, expanded: !e, children: ch },
            ] + host_rows(ch) + t.skip(pos));
        }
    }
}

/// Splits the whole tree around a folder row: the rows before and after its
/// section survive a flag flip unchanged, and its members follow it exactly
/// when it is expanded.
pub proof fn lemma_toggle_tree(
    hosts: Seq<HostModel>,
    fm: Map<Seq<char>, bool>,
    q: Seq<char>,
    row: int,
)
    requires
        0 <= row < tree_spec(hosts, fm, q).len(),
        is_folder_row(tree_spec(hosts, fm, q)[row]),
    ensures
        q.len() == 0,
        ({
            let t = tree_spec(hosts, fm, q);
            let f = row_name(t[row]);
            let e = row_expanded(t[row]);
            let ch = row_children(t[row]);
            &&& e == fm[f]
            &&& ch == members(hosts, f)
            &&& e ==> row + 1 + ch.len() <= t.len() && t.subrange(row + 1, row + 1 + ch.len())
                == host_rows(ch)
            &&& tree_spec(hosts, fm.insert(f, !e), q) == t.take(row) + seq![
                TreeItemModel::Folder { name: f, expanded: !e, children: ch },
            ] + (if e {
                Seq::<TreeItemModel>::empty()
            } else {
                host_rows(ch)
            }) + t.skip(
                row + 1 + (if e {
                    ch.len() as int
                } else {
                    0
                }),
            )
        }),
{
    let t = tree_spec(hosts, fm, q);
    if q.len() > 0 {
        lemma_host_rows_all_hosts(matching_indices(hosts, q));
        assert(false);
    }
    let names = folder_names(hosts);
    let secs = folder_sections(hosts, fm, names);
    let rr = host_rows(root_members(hosts));
    lemma_host_rows_all_hosts(root_members(hosts));
    assert(t == secs + rr);
    assert(row < secs.len()) by {
        if row >= secs.len() {
            assert(t[row] == rr[row - secs.len()]);
        }
    }
    assert(secs[row] == t[row]);
    lemma_folder_names_distinct(hosts);
    lemma_sections_toggle(hosts, fm, names, row);
    let f = row_name(t[row]);
    let e = row_expanded(t[row]);
    let ch = row_children(t[row]);
    let fm2 = fm.insert(f, !e);
    let pos = row + 1 + (if e { ch.len() as int } else { 0 });
    assert(pos <= secs.len());
    assert(t.take(row) =~= secs.take(row));
    assert(t.skip(pos) =~= secs.skip(pos) + rr);
    if e {
        assert(t.subrange(row + 1, row + 1 + ch.len()) =~= secs.subrange(
            row + 1,
            row + 1 + ch.len(),
        ));
    }
    let mid: Seq<TreeItemModel> = if e { Seq::<TreeItemModel>::empty() } else { host_rows(ch) };
    assert(tree_spec(hosts, fm2, q) == folder_sections(hosts, fm2, names) + rr);
    assert(tree_spec(hosts, fm2, q) =~= t.take(row) + seq![
        TreeItemModel::Folder { name: f, expanded: !e, children: ch },
    ] + mid + t.skip(pos));
}

/// Flipping the same folder's flag twice restores the expansion map, and
/// with it the derived tree: toggling is its own inverse.
pub proof fn lemma_toggle_involutive(
    hosts: Seq<HostModel>,
    fm: Map<Seq<char>, bool>,
    q: Seq<char>,
    f: Seq<char>,
)
    requires
        fm.dom().contains(f),
    ensures
        tree_spec(hosts, fm.insert(f, !fm[f]).insert(f, fm[f]), q) == tree_spec(hosts, fm, q),
{
    assert(fm.insert(f, !fm[f]).insert(f, fm[f]) =~= fm);
}

/// Flips the expansion state of the folder row at `row` and patches the
/// member rows in place: the result equals a full rebuild under the flipped
/// flag. A host row or an out-of-range index is left untouched.
#[verifier::loop_isolation(false)]
#[verifier::rlimit(60)]
pub fn toggle_folder_row(
    hosts: &Vec<SshHost>,
    flags: &mut Vec<(String, bool)>,
    items: &mut Vec<TreeItem>,
    query: &str,
    row: usize,
)
    requires
        old(items).deep_view() == tree_spec(
            hosts.deep_view(),
            flags_map(old(flags).deep_view()),
            query@,
        ),
        rows_in_bounds(hosts@.len() as int, old(items).deep_view()),
    ensures
        final(items).deep_view() == tree_spec(
            hosts.deep_view(),
            flags_map(final(flags).deep_view()),
            query@,
        ),
        rows_in_bounds(hosts@.len() as int, final(items).deep_view()),
        row < old(items)@.len() && is_folder_row(old(items).deep_view()[row as int]) ==> ({
            let f = row_name(old(items).deep_view()[row as int]);
            let fm0 = flags_map(old(flags).deep_view());
            flags_map(final(flags).deep_view()) == fm0.insert(f, !fm0[f])
        }),
        !(row < old(items)@.len() && is_folder_row(old(items).deep_view()[row as int])) ==> {
            &&& *final(items) == *old(items)
            &&& *final(flags) == *old(flags)
        },
{
    let ghost hm = hosts.deep_view();
    let ghost fm0 = flags_map(flags.deep_view());
    let ghost t0 = items.deep_view();
    if row >= items.len() {
        return;
    }
    let is_folder = match &items[row] {
        TreeItem::Folder { .. } => true,
        TreeItem::Host { .. } => false,
    };
    if !is_folder {
        return;
    }
    let (name, expanded, children) = match &items[row] {
        TreeItem::Folder { name, expanded, children_indices } => (
            name.clone(),
            *expanded,
            copy_indices(children_indices),
        ),
        TreeItem::Host { host_index } => (String::new(), false, Vec::new()),
    };
    let ghost f = row_name(t0[row as int]);
    let ghost ch = idx_seq(children@);
    proof {
        assert(name@ == f);
        assert(row_expanded(t0[row as int]) == expanded);
        assert(row_children(t0[row as int]) == ch);
        lemma_toggle_tree(hm, fm0, query@, row as int);
        assert forall|j: int| 0 <= j < children@.len() implies #[trigger] children@[j]
            < hosts@.len() by {
            assert(row_in_bounds(hosts@.len() as int, t0[row as int]));
            assert(ch[j] == children@[j] as int);
            assert(0 <= ch[j] < hosts@.len() as int);
        }
    }
    let name_for_flag = name.clone();
    flag_set(flags, name_for_flag, !expanded);
    let ghost fm1 = flags_map(flags.deep_view());
    let ghost target = tree_spec(hm, fm1, query@);
    let children2 = copy_indices(&children);
    items.set(row, TreeItem::Folder { name, expanded: !expanded, children_indices: children2 });
    proof {
        assert(fm1 == fm0.insert(f, !expanded));
    }
    if expanded {
        // collapse: remove the member rows that followed the header
        let n = children.len();
        let mut c: usize = 0;
        proof {
            assert(items.deep_view() =~= t0.take(row as int) + seq![
                TreeItemModel::Folder { name: f, expanded: false, children: ch },
            ] + host_rows(ch) + t0.skip(row + 1 + ch.len()));
            assert(host_rows(ch.take(n as int)) == host_rows(ch)) by {
                assert(ch.take(n as int) =~= ch);
            }
        }
        while c < n
            invariant
                0 <= c <= n,
                n == ch.len(),
                row + 1 + (n - c) <= items@.len(),
                items.deep_view() =~= t0.take(row as int) + seq![
                    TreeItemModel::Folder { name: f, expanded: false, children: ch },
                ] + host_rows(ch.take((n - c) as int)) + t0.skip(row + 1 + ch.len()),
            decreases n - c,
        {
            let ghost before = items.deep_view();
            let ghost bv = items@;
            let cur = items.len();
            proof {
                assert(row + 1 + (n - c) <= cur);
            }
            items.remove(row + (n - c));
            proof {
                let k = (n - c - 1) as int;
                let pos = row + 1 + k;
                lemma_host_rows_len(ch.take(k + 1));
                lemma_host_rows_len(ch.take(k));
                assert(ch.take(k + 1).drop_last() =~= ch.take(k));
                assert(host_rows(ch.take(k + 1)).drop_last() == host_rows(ch.take(k)));
                assert(items@ == bv.remove(pos));
                assert(items.deep_view() =~= before.remove(pos)) by {
                    assert forall|l: int| 0 <= l < items.deep_view().len() implies items.deep_view()[l]
                        == before.remove(pos)[l] by {
                        if l < pos {
                            assert(items@[l] == bv[l]);
                        } else {
                            assert(items@[l] == bv[l + 1]);
                        }
                    }
                }
                let a = t0.take(row as int);
                let fseq = seq![TreeItemModel::Folder { name: f, expanded: false, children: ch }];
                let hk = host_rows(ch.take(k));
                let hk1 = host_rows(ch.take(k + 1));
                let b = t0.skip(row + 1 + ch.len());
                assert(before == a + fseq + hk1 + b);
                assert(a.len() == row as int);
                assert((a + fseq).len() == row + 1);
                assert(hk.len() == k);
                assert(hk1.len() == k + 1);
                assert((a + fseq + hk1).len() == row + 1 + (k + 1));
                assert((a + fseq + hk1 + b).len() == row + 1 + (k + 1) + b.len());
                assert((a + fseq + hk).len() == row + 1 + k);
                assert((a + fseq + hk + b).len() == row + 1 + k + b.len());
                assert(items.deep_view() == before.remove(pos));
                assert(0 <= pos < before.len());
                before.remove_ensures(pos);
                assert forall|l: int| 0 <= l < items.deep_view().len() implies items.deep_view()[l]
                    == (a + fseq + hk + b)[l] by {
                    assert(items.deep_view()[l] == before.remove(pos)[l]);
                    if l < row + 1 {
                        assert(before.remove(pos)[l] == before[l]);
                        assert(before[l] == (a + fseq + hk1 + b)[l]);
                        assert((a + fseq + hk1 + b)[l] == (a + fseq)[l]);
                        assert((a + fseq + hk + b)[l] == (a + fseq)[l]);
                    } else if l < row + 1 + k {
                        assert(before.remove(pos)[l] == before[l]);
                        assert(before[l] == (a + fseq + hk1 + b)[l]);
                        lemma_host_rows_index(ch.take(k), l - row - 1);
                        lemma_host_rows_index(ch.take(k + 1), l - row - 1);
                        assert((a + fseq + hk1 + b)[l] == hk1[l - row - 1]);
                        assert((a + fseq + hk + b)[l] == hk[l - row - 1]);
                        assert(hk1[l - row - 1] == hk[l - row - 1]);
                    } else {
                        assert(before.remove(pos)[l] == before[l + 1]);
                        assert(before[l + 1] == (a + fseq + hk1 + b)[l + 1]);
                        assert((a + fseq + hk1 + b)[l + 1] == b[l + 1 - (row + 2 + k)]);
                        assert((a + fseq + hk + b)[l] == b[l - (row + 1 + k)]);
                    }
                }
                assert(items.deep_view().len() == (a + fseq + hk + b).len());
                assert(items.deep_view() =~= a + fseq + hk + b);
            }
            c = c + 1;
        }
        proof {
            assert(host_rows(ch.take(0)) =~= Seq::<TreeItemModel>::empty());
            assert(items.deep_view() =~= target);
            assert(rows_in_bounds(hosts@.len() as int, items.deep_view())) by {
                assert forall|l: int| 0 <= l < items.deep_view().len() implies row_in_bounds(
                    hosts@.len() as int,
                    #[trigger] items.deep_view()[l],
                ) by {
                    let t = items.deep_view();
                    if l < row {
                        assert(t[l] == t0[l]);
                        assert(row_in_bounds(hosts@.len() as int, t0[l]));
                    } else if l == row {
                    } else {
                        assert(t[l] == t0[l + ch.len()]);
                        assert(row_in_bounds(hosts@.len() as int, t0[l + ch.len()]));
                    }
                }
            }
        }
    } else {
        // expand: insert the member rows right after the header
        let n = children.len();
        let mut j: usize = 0;
        proof {
            assert(items.deep_view() =~= t0.take(row as int) + seq![
                TreeItemModel::Folder { name: f, expanded: true, children: ch },
            ] + host_rows(ch.take(0)) + t0.skip(row + 1));
        }
        while j < n
            invariant
                0 <= j <= n,
                n == children@.len(),
                n == ch.len(),
                ch == idx_seq(children@),
                row + 1 + j <= items@.len(),
                forall|l: int| 0 <= l < children@.len() ==> #[trigger] children@[l]
                    < hosts@.len(),
                items.deep_view() =~= t0.take(row as int) + seq![
                    TreeItemModel::Folder { name: f, expanded: true, children: ch },
                ] + host_rows(ch.take(j as int)) + t0.skip(row + 1),
            decreases n - j,
        {
            let ghost before = items.deep_view();
            let ghost bv = items@;
            let cur = items.len();
            proof {
                assert(row + 1 + j <= cur);
            }
            items.insert(row + 1 + j, TreeItem::Host { host_index: children[j] });
            proof {
                let pos = row + 1 + j as int;
                let elem = TreeItemModel::Host { host_index: ch[j as int] };
                lemma_host_rows_len(ch.take(j as int));
                lemma_host_rows_len(ch.take(j + 1));
                assert(ch.take(j + 1).drop_last() =~= ch.take(j as int));
                assert(ch.take(j + 1).last() == ch[j as int]);
                assert(host_rows(ch.take(j + 1)) == host_rows(ch.take(j as int)).push(elem));
                assert(items@ == bv.insert(pos, TreeItem::Host { host_index: children@[j as int] }));
                assert(items.deep_view() =~= before.insert(pos, elem)) by {
                    assert(ch[j as int] == children@[j as int] as int);
                    assert forall|l: int| 0 <= l < items.deep_view().len() implies items.deep_view()[l]
                        == before.insert(pos, elem)[l] by {
                        if l < pos {
                            assert(items@[l] == bv[l]);
                        } else if l == pos {
                            assert(items@[l] == (TreeItem::Host {
                                host_index: children@[j as int],
                            }));
                        } else {
                            assert(items@[l] == bv[l - 1]);
                        }
                    }
                }
                let a = t0.take(row as int);
                let fseq = seq![TreeItemModel::Folder { name: f, expanded: true, children: ch }];
                let hj = host_rows(ch.take(j as int));
                let hj1 = host_rows(ch.take(j + 1));
                let b = t0.skip(row + 1);
                assert(before == a + fseq + hj + b);
                assert(a.len() == row as int);
                assert((a + fseq).len() == row + 1);
                assert(hj.len() == j as int);
                assert(hj1.len() == j + 1);
                assert((a + fseq + hj).len() == row + 1 + j);
                assert((a + fseq + hj + b).len() == row + 1 + j + b.len());
                assert((a + fseq + hj1).len() == row + 1 + (j + 1));
                assert((a + fseq + hj1 + b).len() == row + 1 + (j + 1) + b.len());
                assert(items.deep_view() == before.insert(pos, elem));
                assert(0 <= pos <= before.len());
                before.insert_ensures(pos, elem);
                assert forall|l: int| 0 <= l < items.deep_view().len() implies items.deep_view()[l]
                    == (a + fseq + hj1 + b)[l] by {
                    assert(items.deep_view()[l] == before.insert(pos, elem)[l]);
                    if l < pos {
                        assert(before.insert(pos, elem)[l] == before[l]);
                        assert(before[l] == (a + fseq + hj + b)[l]);
                        if l < row + 1 {
                            assert((a + fseq + hj + b)[l] == (a + fseq)[l]);
                            assert((a + fseq + hj1 + b)[l] == (a + fseq)[l]);
                        } else {
                            lemma_host_rows_index(ch.take(j as int), l - row - 1);
                            lemma_host_rows_index(ch.take(j + 1), l - row - 1);
                            assert((a + fseq + hj + b)[l] == hj[l - row - 1]);
                            assert((a + fseq + hj1 + b)[l] == hj1[l - row - 1]);
                        }
                    } else if l == pos {
                        lemma_host_rows_index(ch.take(j + 1), j as int);
                        assert((a + fseq + hj1 + b)[l] == hj1[j as int]);
                    } else {
                        assert(before.insert(pos, elem)[l] == before[l - 1]);
                        assert(before[l - 1] == (a + fseq + hj + b)[l - 1]);
                        assert((a + fseq + hj + b)[l - 1] == b[l - 1 - (row + 1 + j)]);
                        assert((a + fseq + hj1 + b)[l] == b[l - (row + 2 + j)]);
                    }
                }
                assert(items.deep_view().len() == (a + fseq + hj1 + b).len());
                assert(items.deep_view() =~= a + fseq + hj1 + b);
            }
            j = j + 1;
        }
        proof {
            assert(ch.take(n as int) =~= ch);
            assert(host_rows(ch.take(n as int)) == host_rows(ch));
            assert(items.deep_view() =~= target);
            lemma_host_rows_len(ch);
            assert(rows_in_bounds(hosts@.len() as int, items.deep_view())) by {
                assert forall|l: int| 0 <= l < items.deep_view().len() implies row_in_bounds(
                    hosts@.len() as int,
                    #[trigger] items.deep_view()[l],
                ) by {
                    let t = items.deep_view();
                    if l < row {
                        assert(t[l] == t0[l]);
                        assert(row_in_bounds(hosts@.len() as int, t0[l]));
                    } else if l == row {
                    } else if l < row + 1 + ch.len() {
                        lemma_host_rows_index(ch, l - row - 1);
                        assert(ch[l - row - 1] == children@[l - row - 1] as int);
                    } else {
                        assert(t[l] == t0[l - ch.len()]);
                        assert(row_in_bounds(hosts@.len() as int, t0[l - ch.len()]));
                    }
                }
            }
        }
    }
}

// ---------------------------------------------------------------------------
// Shape of the derived tree.
// ---------------------------------------------------------------------------

/// The indices a query selects: each points at a matching host, every
/// matching host is selected, and the original order is kept.
pub proof fn lemma_matching_props(hosts: Seq<HostModel>, q: Seq<char>)
    ensures
        ({
            let m = matching_indices(hosts, q);
            &&& forall|k: int|
                0 <= k < m.len() ==> 0 <= #[trigger] m[k] < hosts.len() && host_matches(
                    hosts[m[k]],
                    q,
                )
            &&& forall|j: int|
                0 <= j < hosts.len() && host_matches(#[trigger] hosts[j], q) ==> m.contains(j)
            &&& forall|k1: int, k2: int| 0 <= k1 < k2 < m.len() ==> #[trigger] m[k1] < #[trigger] m[k2]
        }),
    decreases hosts.len(),
{
    if hosts.len() > 0 {
        let d = hosts.drop_last();
        lemma_matching_props(d, q);
        let mp = matching_indices(d, q);
        let m = matching_indices(hosts, q);
        assert(forall|k: int| 0 <= k < d.len() ==> #[trigger] d[k] == hosts[k]);
        assert forall|j: int|
            0 <= j < hosts.len() && host_matches(#[trigger] hosts[j], q) implies m.contains(
            j,
        ) by {
            if j < hosts.len() - 1 {
                assert(d[j] == hosts[j]);
                assert(host_matches(d[j], q));
                assert(mp.contains(j));
                let k = choose|k: int| 0 <= k < mp.len() && mp[k] == j;
                assert(m[k] == j);
            } else {
                assert(host_matches(hosts.last(), q));
                assert(m.last() == j);
            }
        }
    }
}

/// With an active query the tree is exactly the flat, order-preserving
/// list of matching hosts, and holds no folder rows.
pub proof fn lemma_query_tree(hosts: Seq<HostModel>, fm: Map<Seq<char>, bool>, q: Seq<char>)
    requires
        q.len() > 0,
    ensures
        tree_spec(hosts, fm, q) == host_rows(matching_indices(hosts, q)),
        tree_spec(hosts, fm, q).len() == matching_indices(hosts, q).len(),
        forall|i: int|
            0 <= i < tree_spec(hosts, fm, q).len() ==> !is_folder_row(
                #[trigger] tree_spec(hosts, fm, q)[i],
            ),
        forall|i: int|
            0 <= i < tree_spec(hosts, fm, q).len() ==> #[trigger] tree_spec(hosts, fm, q)[i]
                == (TreeItemModel::Host { host_index: matching_indices(hosts, q)[i] }),
{
    let m = matching_indices(hosts, q);
    lemma_host_rows_all_hosts(m);
    assert forall|i: int| 0 <= i < host_rows(m).len() implies #[trigger] host_rows(m)[i]
        == (TreeItemModel::Host { host_index: m[i] }) by {
        lemma_host_rows_index(m, i);
    }
}

/// The member indices of a folder: sorted by display name, each a visible
/// host of that folder, and complete.
pub proof fn lemma_members_props(hosts: Seq<HostModel>, f: Seq<char>)
    ensures
        ({
            let ms = members(hosts, f);
            &&& sorted_le(key_le(hosts), ms)
            &&& forall|k: int|
                0 <= k < ms.len() ==> 0 <= #[trigger] ms[k] < hosts.len()
                    && hosts[ms[k]].visible && hosts[ms[k]].folder == Some(f)
            &&& forall|j: int|
                0 <= j < hosts.len() && (#[trigger] hosts[j]).visible && hosts[j].folder
                    == Some(f) ==> ms.contains(j)
        }),
{
    lemma_key_le_laws(hosts);
    let u = members_unsorted(hosts, f);
    let ms = members(hosts, f);
    lemma_members_unsorted_props(hosts, f);
    lemma_sort_le_props(key_le(hosts), u);
    ms.to_multiset_ensures();
    u.to_multiset_ensures();
    assert forall|k: int|
        0 <= k < ms.len() implies 0 <= #[trigger] ms[k] < hosts.len() && hosts[ms[k]].visible
        && hosts[ms[k]].folder == Some(f) by {
        assert(ms.to_multiset().contains(ms[k])) by {
            assert(ms[k] == ms[k]);
        }
        assert(u.contains(ms[k]));
        let j = choose|j: int| 0 <= j < u.len() && u[j] == ms[k];
    }
    assert forall|j: int|
        0 <= j < hosts.len() && (#[trigger] hosts[j]).visible && hosts[j].folder == Some(
            f,
        ) implies ms.contains(j) by {
        assert(u.contains(j));
        assert(u.to_multiset().contains(j));
        assert(ms.to_multiset().contains(j));
    }
}

proof fn lemma_members_unsorted_props(hosts: Seq<HostModel>, f: Seq<char>)
    ensures
        ({
            let u = members_unsorted(hosts, f);
            &&& forall|k: int|
                0 <= k < u.len() ==> 0 <= #[trigger] u[k] < hosts.len() && hosts[u[k]].visible
                    && hosts[u[k]].folder == Some(f)
            &&& forall|j: int|
                0 <= j < hosts.len() && (#[trigger] hosts[j]).visible && hosts[j].folder
                    == Some(f) ==> u.contains(j)
        }),
    decreases hosts.len(),
{
    if hosts.len() > 0 {
        let d = hosts.drop_last();
        lemma_members_unsorted_props(d, f);
        let up = members_unsorted(d, f);
        let u = members_unsorted(hosts, f);
        assert(forall|k: int| 0 <= k < d.len() ==> #[trigger] d[k] == hosts[k]);
        assert forall|j: int|
            0 <= j < hosts.len() && (#[trigger] hosts[j]).visible && hosts[j].folder == Some(
                f,
            ) implies u.contains(j) by {
            if j < hosts.len() - 1 {
                assert(d[j] == hosts[j]);
                assert(up.contains(j));
                let k = choose|k: int| 0 <= k < up.len() && up[k] == j;
                assert(u[k] == j);
            } else {
                assert(u.last() == j);
            }
        }
    }
}

/// The root-level indices: sorted by display name, each a visible host
/// without a folder, and complete.
pub proof fn lemma_root_props(hosts: Seq<HostModel>)
    ensures
        ({
            let ms = root_members(hosts);
            &&& sorted_le(key_le(hosts), ms)
            &&& forall|k: int|
                0 <= k < ms.len() ==> 0 <= #[trigger] ms[k] < hosts.len()
                    && hosts[ms[k]].visible && hosts[ms[k]].folder is None
            &&& forall|j: int|
                0 <= j < hosts.len() && (#[trigger] hosts[j]).visible && hosts[j].folder
                    is None ==> ms.contains(j)
        }),
{
    lemma_key_le_laws(hosts);
    let u = root_unsorted(hosts);
    let ms = root_members(hosts);
    lemma_root_unsorted_props(hosts);
    lemma_sort_le_props(key_le(hosts), u);
    ms.to_multiset_ensures();
    u.to_multiset_ensures();
    assert forall|k: int|
        0 <= k < ms.len() implies 0 <= #[trigger] ms[k] < hosts.len() && hosts[ms[k]].visible
        && hosts[ms[k]].folder is None by {
        assert(ms.to_multiset().contains(ms[k])) by {
            assert(ms[k] == ms[k]);
        }
        assert(u.contains(ms[k]));
        let j = choose|j: int| 0 <= j < u.len() && u[j] == ms[k];
    }
    assert forall|j: int|
        0 <= j < hosts.len() && (#[trigger] hosts[j]).visible && hosts[j].folder
            is None implies ms.contains(j) by {
        assert(u.contains(j));
        assert(u.to_multiset().contains(j));
        assert(ms.to_multiset().contains(j));
    }
}

proof fn lemma_root_unsorted_props(hosts: Seq<HostModel>)
    ensures
        ({
            let u = root_unsorted(hosts);
            &&& forall|k: int|
                0 <= k < u.len() ==> 0 <= #[trigger] u[k] < hosts.len() && hosts[u[k]].visible
                    && hosts[u[k]].folder is None
            &&& forall|j: int|
                0 <= j < hosts.len() && (#[trigger] hosts[j]).visible && hosts[j].folder
                    is None ==> u.contains(j)
        }),
    decreases hosts.len(),
{
    if hosts.len() > 0 {
        let d = hosts.drop_last();
        lemma_root_unsorted_props(d);
        let up = root_unsorted(d);
        let u = root_unsorted(hosts);
        assert(forall|k: int| 0 <= k < d.len() ==> #[trigger] d[k] == hosts[k]);
        assert forall|j: int|
            0 <= j < hosts.len() && (#[trigger] hosts[j]).visible && hosts[j].folder
                is None implies u.contains(j) by {
            if j < hosts.len() - 1 {
                assert(d[j] == hosts[j]);
                assert(up.contains(j));
                let k = choose|k: int| 0 <= k < up.len() && up[k] == j;
                assert(u[k] == j);
            } else {
                assert(u.last() == j);
            }
        }
    }
}

/// Every row of the sections carries a name of the listed folders or a
/// visible member host of one of them.
proof fn lemma_sections_rows(
    hosts: Seq<HostModel>,
    fm: Map<Seq<char>, bool>,
    names: Seq<Seq<char>>,
)
    ensures
        ({
            let t = folder_sections(hosts, fm, names);
            forall|i: int|
                0 <= i < t.len() ==> match #[trigger] t[i] {
                    TreeItemModel::Folder { name, .. } => names.contains(name),
                    TreeItemModel::Host { host_index } => 0 <= host_index < hosts.len()
                        && hosts[host_index].visible,
                }
        }),
    decreases names.len(),
{
    if names.len() > 0 {
        let d = names.drop_last();
        lemma_sections_rows(hosts, fm, d);
        let tp = folder_sections(hosts, fm, d);
        let t = folder_sections(hosts, fm, names);
        let sec = folder_section(hosts, fm, names.last());
        let ms = members(hosts, names.last());
        lemma_members_props(hosts, names.last());
        lemma_host_rows_all_hosts(ms);
        assert(forall|k: int| 0 <= k < d.len() ==> #[trigger] d[k] == names[k]);
        assert forall|i: int| 0 <= i < t.len() implies match #[trigger] t[i] {
            TreeItemModel::Folder { name, .. } => names.contains(name),
            TreeItemModel::Host { host_index } => 0 <= host_index < hosts.len()
                && hosts[host_index].visible,
        } by {
            if i < tp.len() {
                assert(t[i] == tp[i]);
                match tp[i] {
                    TreeItemModel::Folder { name, .. } => {
                        let k = choose|k: int| 0 <= k < d.len() && d[k] == name;
                        assert(names[k] == name);
                    },
                    TreeItemModel::Host { .. } => {},
                }
            } else {
                assert(t[i] == sec[i - tp.len()]);
                if i == tp.len() {
                    assert(names[names.len() - 1] == names.last());
                } else {
                    lemma_host_rows_index(ms, i - tp.len() - 1);
                }
            }
        }
    }
}

/// Without a query, the tree's folder rows are lexicographically sorted
/// and distinct, and its host rows all point at visible hosts.
pub proof fn lemma_plain_tree(hosts: Seq<HostModel>, fm: Map<Seq<char>, bool>, q: Seq<char>)
    requires
        q.len() == 0,
    ensures
        ({
            let t = tree_spec(hosts, fm, q);
            &&& forall|i: int|
                0 <= i < t.len() ==> match #[trigger] t[i] {
                    TreeItemModel::Folder { name, .. } => folder_names(hosts).contains(name),
                    TreeItemModel::Host { host_index } => 0 <= host_index < hosts.len()
                        && hosts[host_index].visible,
                }
            &&& forall|i: int, j: int|
                0 <= i < j < t.len() && is_folder_row(#[trigger] t[i]) && is_folder_row(
                    #[trigger] t[j],
                ) ==> str_le(row_name(t[i]), row_name(t[j])) && row_name(t[i]) != row_name(t[j])
        }),
{
    let names = folder_names(hosts);
    let t = tree_spec(hosts, fm, q);
    let secs = folder_sections(hosts, fm, names);
    let rr = host_rows(root_members(hosts));
    lemma_sections_rows(hosts, fm, names);
    lemma_root_props(hosts);
    lemma_host_rows_all_hosts(root_members(hosts));
    assert forall|i: int| 0 <= i < t.len() implies match #[trigger] t[i] {
        TreeItemModel::Folder { name, .. } => folder_names(hosts).contains(name),
        TreeItemModel::Host { host_index } => 0 <= host_index < hosts.len()
            && hosts[host_index].visible,
    } by {
        if i < secs.len() {
            assert(t[i] == secs[i]);
        } else {
            assert(t[i] == rr[i - secs.len()]);
            lemma_host_rows_index(root_members(hosts), i - secs.len());
        }
    }
    lemma_folder_names_distinct(hosts);
    lemma_name_le_laws();
    lemma_sort_le_props(name_le(), folder_names_unsorted(hosts));
    lemma_sections_folder_order(hosts, fm, names);
    assert forall|i: int, j: int|
        0 <= i < j < t.len() && is_folder_row(#[trigger] t[i]) && is_folder_row(
            #[trigger] t[j],
        ) implies str_le(row_name(t[i]), row_name(t[j])) && row_name(t[i]) != row_name(
        t[j],
    ) by {
        if j >= secs.len() {
            lemma_host_rows_index(root_members(hosts), j - secs.len());
            assert(false);
        } else {
            assert(t[i] == secs[i] && t[j] == secs[j]);
        }
    }
}

/// In sections over sorted, distinct names, later folder rows carry
/// strictly greater names.
proof fn lemma_sections_folder_order(
    hosts: Seq<HostModel>,
    fm: Map<Seq<char>, bool>,
    names: Seq<Seq<char>>,
)
    requires
        sorted_le(name_le(), names),
        names.no_duplicates(),
    ensures
        ({
            let t = folder_sections(hosts, fm, names);
            forall|i: int, j: int|
                0 <= i < j < t.len() && is_folder_row(#[trigger] t[i]) && is_folder_row(
                    #[trigger] t[j],
                ) ==> str_le(row_name(t[i]), row_name(t[j])) && row_name(t[i]) != row_name(t[j])
        }),
    decreases names.len(),
{
    if names.len() > 0 {
        let d = names.drop_last();
        assert(sorted_le(name_le(), d) && d.no_duplicates()) by {
            assert(forall|k: int| 0 <= k < d.len() ==> #[trigger] d[k] == names[k]);
        }
        lemma_sections_folder_order(hosts, fm, d);
        lemma_sections_rows(hosts, fm, d);
        let tp = folder_sections(hosts, fm, d);
        let t = folder_sections(hosts, fm, names);
        let sec = folder_section(hosts, fm, names.last());
        let ms = members(hosts, names.last());
        lemma_host_rows_all_hosts(ms);
        assert(forall|k: int| 0 <= k < d.len() ==> #[trigger] d[k] == names[k]);
        assert forall|i: int, j: int|
            0 <= i < j < t.len() && is_folder_row(#[trigger] t[i]) && is_folder_row(
                #[trigger] t[j],
            ) implies str_le(row_name(t[i]), row_name(t[j])) && row_name(t[i]) != row_name(
            t[j],
        ) by {
            if j < tp.len() {
                assert(t[i] == tp[i] && t[j] == tp[j]);
            } else {
                assert(t[i] == tp[i]);
                assert(t[j] == sec[j - tp.len()]);
                if j - tp.len() > 0 {
                    assert(!is_folder_row(t[j]));
                } else {
                    assert(row_name(t[j]) == names.last());
                    match tp[i] {
                        TreeItemModel::Folder { name, .. } => {
                            let k = choose|k: int| 0 <= k < d.len() && d[k] == name;
                            assert(name_le()(names[k], names[names.len() - 1]));
                            assert(names[k] != names[names.len() - 1]);
                        },
                        TreeItemModel::Host { .. } => {
                            assert(false);
                        },
                    }
                }
            }
        }
    }
}

} // verus!
