//! The SFTP tab: the remote directory tree (expanded set, cached listings,
//! read errors), its visible rows, remote path joining, and the decisions the
//! tab takes on each of its messages.
use vstd::prelude::*;
use crate::kv::{lookup, lemma_lookup_domain, contains_str, kv_get, kv_put, kv_remove, set_insert, set_contains, set_remove};
use crate::text::{chars_of, string_of, str_eq, trim_end_char, trim_end_char_chars, concat};

verus! {

/// One entry of a remote directory listing.
#[derive(Debug, PartialEq)]
pub struct RemoteEntry {
    pub path: String,
    pub name: String,
    pub is_dir: bool,
}

/// A remote entry by value.
pub struct EntryView {
    pub path: Seq<char>,
    pub name: Seq<char>,
    pub is_dir: bool,
}

impl View for RemoteEntry {
    type V = EntryView;

    open spec fn view(&self) -> EntryView {
        EntryView { path: self.path@, name: self.name@, is_dir: self.is_dir }
    }
}

impl Clone for RemoteEntry {
    fn clone(&self) -> (r: Self)
        ensures
            r@ == self@,
    {
        RemoteEntry { path: self.path.clone(), name: self.name.clone(), is_dir: self.is_dir }
    }
}

/// A listing by value.
pub open spec fn entries_view(s: Seq<RemoteEntry>) -> Seq<EntryView> {
    s.map_values(|e: RemoteEntry| e@)
}

/// Lexicographic order on names, character by character (the order of
/// `str`'s comparison, since UTF-8 keeps the order of code points).
pub open spec fn name_le(a: Seq<char>, b: Seq<char>) -> bool
    decreases a.len(),
{
    if a.len() == 0 {
        true
    } else if b.len() == 0 {
        false
    } else if a[0] != b[0] {
        a[0] < b[0]
    } else {
        name_le(a.drop_first(), b.drop_first())
    }
}

/// Listing order: directories before files, then by name.
pub open spec fn entry_le(a: EntryView, b: EntryView) -> bool {
    (a.is_dir && !b.is_dir) || (a.is_dir == b.is_dir && name_le(a.name, b.name))
}

/// A listing in listing order.
pub open spec fn sorted_entries(s: Seq<EntryView>) -> bool {
    forall|i: int, j: int| 0 <= i < j < s.len() ==> entry_le(#[trigger] s[i], #[trigger] s[j])
}

/// The entries of `s` with the given kind and name, in their order in `s`.
pub open spec fn with_key(s: Seq<EntryView>, d: bool, n: Seq<char>) -> Seq<EntryView>
    decreases s.len(),
{
    if s.len() == 0 {
        Seq::empty()
    } else if s.last().is_dir == d && s.last().name == n {
        with_key(s.drop_last(), d, n).push(s.last())
    } else {
        with_key(s.drop_last(), d, n)
    }
}

/// `r` is `s` sorted stably into listing order: sorted, and the entries that
/// compare equal keep their order.
pub open spec fn stable_sort_of(r: Seq<EntryView>, s: Seq<EntryView>) -> bool {
    &&& r.len() == s.len()
    &&& sorted_entries(r)
    &&& forall|d: bool, n: Seq<char>| #[trigger] with_key(r, d, n) == with_key(s, d, n)
}

proof fn lemma_name_le_refl(a: Seq<char>)
    ensures
        name_le(a, a),
    decreases a.len(),
{
    if a.len() > 0 {
        lemma_name_le_refl(a.drop_first());
    }
}

proof fn lemma_name_le_total(a: Seq<char>, b: Seq<char>)
    ensures
        name_le(a, b) || name_le(b, a),
    decreases a.len(),
{
    if a.len() > 0 && b.len() > 0 && a[0] == b[0] {
        lemma_name_le_total(a.drop_first(), b.drop_first());
    }
}

proof fn lemma_name_le_trans(a: Seq<char>, b: Seq<char>, c: Seq<char>)
    requires
        name_le(a, b),
        name_le(b, c),
    ensures
        name_le(a, c),
    decreases a.len(),
{
    if a.len() > 0 && b.len() > 0 && c.len() > 0 && a[0] == b[0] && b[0] == c[0] {
        lemma_name_le_trans(a.drop_first(), b.drop_first(), c.drop_first());
    }
}

proof fn lemma_entry_le_refl(a: EntryView)
    ensures
        entry_le(a, a),
{
    lemma_name_le_refl(a.name);
}

proof fn lemma_entry_le_total(a: EntryView, b: EntryView)
    ensures
        entry_le(a, b) || entry_le(b, a),
{
    lemma_name_le_total(a.name, b.name);
}

proof fn lemma_entry_le_trans(a: EntryView, b: EntryView, c: EntryView)
    requires
        entry_le(a, b),
        entry_le(b, c),
    ensures
        entry_le(a, c),
{
    if a.is_dir == b.is_dir && b.is_dir == c.is_dir {
        lemma_name_le_trans(a.name, b.name, c.name);
    }
}

proof fn lemma_with_key_concat(a: Seq<EntryView>, b: Seq<EntryView>, d: bool, n: Seq<char>)
    ensures
        with_key(a + b, d, n) == with_key(a, d, n) + with_key(b, d, n),
    decreases b.len(),
{
    if b.len() == 0 {
        assert(a + b =~= a);
        assert(with_key(b, d, n) =~= Seq::<EntryView>::empty());
        assert(with_key(a, d, n) + with_key(b, d, n) =~= with_key(a, d, n));
    } else {
        assert((a + b).drop_last() =~= a + b.drop_last());
        assert((a + b).last() == b.last());
        lemma_with_key_concat(a, b.drop_last(), d, n);
        if b.last().is_dir == d && b.last().name == n {
            assert(with_key(a, d, n) + with_key(b.drop_last(), d, n).push(b.last()) =~= (with_key(a, d,
                n) + with_key(b.drop_last(), d, n)).push(b.last()));
        }
    }
}

proof fn lemma_with_key_none(a: Seq<EntryView>, d: bool, n: Seq<char>)
    requires
        forall|j: int| 0 <= j < a.len() ==> !(a[j].is_dir == d && a[j].name == n),
    ensures
        with_key(a, d, n) == Seq::<EntryView>::empty(),
    decreases a.len(),
{
    if a.len() > 0 {
        lemma_with_key_none(a.drop_last(), d, n);
    }
}

/// `a <= b` in the name order, computed.
fn name_le_exec(a: &Vec<char>, b: &Vec<char>) -> (r: bool)
    ensures
        r == name_le(a@, b@),
{
    let mut i: usize = 0;
    assert(a@.skip(0) =~= a@);
    assert(b@.skip(0) =~= b@);
    while i < a.len() && i < b.len()
        invariant
            i <= a.len(),
            i <= b.len(),
            name_le(a@, b@) == name_le(a@.skip(i as int), b@.skip(i as int)),
        decreases a.len() - i,
    {
        if a[i] != b[i] {
            return a[i] < b[i];
        }
        assert(a@.skip(i as int).drop_first() =~= a@.skip(i + 1));
        assert(b@.skip(i as int).drop_first() =~= b@.skip(i + 1));
        i = i + 1;
    }
    a.len() <= b.len()
}

/// `a` comes no later than `b` in listing order, computed.
fn entry_le_exec(a: &RemoteEntry, b: &RemoteEntry) -> (r: bool)
    ensures
        r == entry_le(a@, b@),
{
    if a.is_dir != b.is_dir {
        return a.is_dir;
    }
    let x = chars_of(a.name.as_str());
    let y = chars_of(b.name.as_str());
    name_le_exec(&x, &y)
}

/// Inserting `x` after the entries that come no later than it, and before the
/// rest, keeps a sorted listing sorted and appends `x` to its key's group.
proof fn lemma_insert_sorted(e: Seq<EntryView>, pos: int, x: EntryView)
    requires
        sorted_entries(e),
        0 <= pos <= e.len(),
        forall|j: int| 0 <= j < pos ==> entry_le(#[trigger] e[j], x),
        pos < e.len() ==> !entry_le(e[pos], x),
    ensures
        sorted_entries(e.insert(pos, x)),
        forall|d: bool, n: Seq<char>| #[trigger] with_key(e.insert(pos, x), d, n) == with_key(e.push(x), d, n),
{
    let e2 = e.insert(pos, x);
    assert forall|j: int| pos <= j < e.len() implies !entry_le(#[trigger] e[j], x) && entry_le(x, e[j]) by {
        if entry_le(e[j], x) {
            if j > pos {
                assert(entry_le(e[pos], e[j]));
                lemma_entry_le_trans(e[pos], e[j], x);
            }
        }
        lemma_entry_le_total(e[j], x);
    }
    assert forall|a: int, b: int| 0 <= a < b < e2.len() implies entry_le(#[trigger] e2[a], #[trigger] e2[b]) by {
        if b < pos {
            assert(e2[a] == e[a] && e2[b] == e[b]);
        } else if b == pos {
            assert(e2[a] == e[a] && e2[b] == x);
        } else if a < pos {
            assert(e2[a] == e[a] && e2[b] == e[b - 1]);
            assert(entry_le(e[a], x));
            assert(entry_le(x, e[b - 1]));
            lemma_entry_le_trans(e[a], x, e[b - 1]);
        } else if a == pos {
            assert(e2[a] == x && e2[b] == e[b - 1]);
        } else {
            assert(e2[a] == e[a - 1] && e2[b] == e[b - 1]);
        }
    }
    let pre = e.take(pos);
    let post = e.skip(pos);
    assert(e =~= pre + post);
    assert(e2 =~= pre + (seq![x] + post));
    assert forall|d: bool, n: Seq<char>| #[trigger] with_key(e2, d, n) == with_key(e.push(x), d, n) by {
        lemma_with_key_concat(pre, seq![x] + post, d, n);
        lemma_with_key_concat(seq![x], post, d, n);
        lemma_with_key_concat(pre, post, d, n);
        assert(seq![x].drop_last() =~= Seq::<EntryView>::empty());
        assert(with_key(Seq::<EntryView>::empty(), d, n) =~= Seq::<EntryView>::empty());
        assert(with_key(seq![x], d, n) == if x.is_dir == d && x.name == n { seq![x] } else { Seq::<EntryView>::empty() }) by {
            assert(Seq::<EntryView>::empty().push(x) =~= seq![x]);
        }
        if x.is_dir == d && x.name == n {
            assert forall|j: int| 0 <= j < post.len() implies !(post[j].is_dir == d && post[j].name == n) by {
                assert(post[j] == e[pos + j]);
                lemma_entry_le_refl(x);
            }
            lemma_with_key_none(post, d, n);
            assert(with_key(e2, d, n) =~= with_key(e, d, n).push(x));
        } else {
            assert(with_key(e2, d, n) =~= with_key(e, d, n));
        }
        assert(e.push(x).drop_last() =~= e);
    }
}

/// Sorts a listing into listing order, stably (directories first, then by
/// name; entries that compare equal keep their order).
pub fn sort_entries(v: &Vec<RemoteEntry>) -> (r: Vec<RemoteEntry>)
    ensures
        stable_sort_of(entries_view(r@), entries_view(v@)),
{
    let mut r: Vec<RemoteEntry> = Vec::new();
    let mut i: usize = 0;
    assert(entries_view(v@.take(0)) =~= Seq::<EntryView>::empty());
    assert(entries_view(r@) =~= Seq::<EntryView>::empty());
    while i < v.len()
        invariant
            i <= v.len(),
            stable_sort_of(entries_view(r@), entries_view(v@.take(i as int))),
        decreases v.len() - i,
    {
        let x = v[i].clone();
        let mut pos: usize = 0;
        let mut go = true;
        while go && pos < r.len()
            invariant
                pos <= r.len(),
                forall|j: int| 0 <= j < pos ==> entry_le(#[trigger] r@[j]@, x@),
                !go ==> pos < r.len() && !entry_le(r@[pos as int]@, x@),
            decreases r.len() - pos + if go { 1int } else { 0int },
        {
            if entry_le_exec(&r[pos], &x) {
                pos = pos + 1;
            } else {
                go = false;
            }
        }
        let ghost e = entries_view(r@);
        let ghost xv = x@;
        let ghost prev = entries_view(v@.take(i as int));
        proof {
            assert forall|j: int| 0 <= j < pos implies entry_le(#[trigger] e[j], xv) by {
                assert(e[j] == r@[j]@);
            }
            if pos < r.len() {
                assert(e[pos as int] == r@[pos as int]@);
            }
            lemma_insert_sorted(e, pos as int, xv);
        }
        r.insert(pos, x);
        proof {
            assert(entries_view(r@) =~= e.insert(pos as int, xv));
            assert(entries_view(v@.take(i + 1)) =~= prev.push(xv));
            assert forall|d: bool, n: Seq<char>| #[trigger] with_key(entries_view(r@), d, n) == with_key(entries_view(v@.take(i + 1)), d, n) by {
                assert(with_key(e.push(xv), d, n) == if xv.is_dir == d && xv.name == n {
                    with_key(e, d, n).push(xv) } else { with_key(e, d, n) }) by {
                    assert(e.push(xv).drop_last() =~= e);
                }
                assert(with_key(prev.push(xv), d, n) == if xv.is_dir == d && xv.name == n {
                    with_key(prev, d, n).push(xv) } else { with_key(prev, d, n) }) by {
                    assert(prev.push(xv).drop_last() =~= prev);
                }
            }
        }
        i = i + 1;
    }
    assert(v@.take(v.len() as int) =~= v@);
    r
}

/// One visible row of the remote tree.
#[derive(Debug, PartialEq)]
pub struct TreeRow {
    pub path: String,
    pub name: String,
    pub depth: usize,
    pub is_dir: bool,
    pub expanded: bool,
}

/// A visible row by value.
pub struct RowView {
    pub path: Seq<char>,
    pub name: Seq<char>,
    pub depth: int,
    pub is_dir: bool,
    pub expanded: bool,
}

impl View for TreeRow {
    type V = RowView;

    open spec fn view(&self) -> RowView {
        RowView {
            path: self.path@,
            name: self.name@,
            depth: self.depth as int,
            is_dir: self.is_dir,
            expanded: self.expanded,
        }
    }
}

/// Rows by value.
pub open spec fn rows_view(s: Seq<TreeRow>) -> Seq<RowView> {
    s.map_values(|r: TreeRow| r@)
}

/// The remote directory tree: its root, the directories shown expanded, the
/// listings read so far and the directories whose listing failed.
#[derive(Debug)]
pub struct RemoteTree {
    root: String,
    expanded: Vec<String>,
    children: Vec<(String, Vec<RemoteEntry>)>,
    errors: Vec<(String, String)>,
}

/// A remote tree by value.
pub struct TreeView {
    pub root: Seq<char>,
    pub expanded: Set<Seq<char>>,
    pub children: Map<Seq<char>, Seq<EntryView>>,
    pub errors: Map<Seq<char>, Seq<char>>,
}

impl View for RemoteTree {
    type V = TreeView;

    closed spec fn view(&self) -> TreeView {
        TreeView {
            root: self.root@,
            expanded: Set::new(|k: Seq<char>| contains_str(self.expanded@, k)),
            children: Map::new(
                |k: Seq<char>| lookup(self.children@, k) is Some,
                |k: Seq<char>| entries_view(lookup(self.children@, k).unwrap()@),
            ),
            errors: Map::new(
                |k: Seq<char>| lookup(self.errors@, k) is Some,
                |k: Seq<char>| lookup(self.errors@, k).unwrap()@,
            ),
        }
    }
}

/// The row of one entry at the given depth.
pub open spec fn row_of(t: TreeView, e: EntryView, depth: int) -> RowView {
    RowView {
        path: e.path,
        name: e.name,
        depth,
        is_dir: e.is_dir,
        expanded: t.expanded.contains(e.path),
    }
}

/// The rows of the entries of one listing at the given depth, each followed
/// by the rows beneath it when it is an expanded directory; `fuel` bounds how
/// many more levels the walk may descend.
pub open spec fn rows_of_entries(t: TreeView, s: Seq<EntryView>, depth: int, fuel: nat) -> Seq<RowView>
    decreases fuel, s.len(),
{
    if s.len() == 0 {
        Seq::empty()
    } else {
        let e = s.last();
        let below = if e.is_dir && t.expanded.contains(e.path) {
            rows_from(t, e.path, depth + 1, fuel)
        } else {
            Seq::empty()
        };
        rows_of_entries(t, s.drop_last(), depth, fuel).push(row_of(t, e, depth)) + below
    }
}

/// The rows beneath directory `dir`: nothing when its listing has not been
/// read (or the walk may descend no further).
pub open spec fn rows_from(t: TreeView, dir: Seq<char>, depth: int, fuel: nat) -> Seq<RowView>
    decreases fuel, 0nat,
{
    if fuel == 0 || !t.children.contains_key(dir) {
        Seq::empty()
    } else {
        rows_of_entries(t, t.children[dir], depth, (fuel - 1) as nat)
    }
}

impl RemoteTree {
    /// How many levels the row walk may descend: the number of listings held,
    /// so that it is never reached unless a listing leads back to a directory
    /// above it.
    pub closed spec fn depth_bound(&self) -> nat {
        self.children@.len()
    }

    /// The listings held count no more directories than the walk's depth
    /// bound.
    pub proof fn lemma_depth_bound(&self)
        ensures
            self@.children.dom().finite(),
            self@.children.dom().len() <= self.depth_bound(),
    {
        lemma_lookup_domain(self.children@);
        assert(self@.children.dom() =~= Set::new(|k: Seq<char>| lookup(self.children@, k) is Some));
    }

    /// The rows the tree shows, depth first from the root.
    pub open spec fn visible(&self) -> Seq<RowView> {
        rows_from(self@, self@.root, 0, self.depth_bound())
    }

    /// An empty tree at `root`: nothing expanded, nothing read.
    pub fn new(root: &str) -> (t: Self)
        ensures
            t@.root == root@,
            t@.expanded == Set::<Seq<char>>::empty(),
            t@.children == Map::<Seq<char>, Seq<EntryView>>::empty(),
            t@.errors == Map::<Seq<char>, Seq<char>>::empty(),
            t.depth_bound() == 0,
    {
        let cs = chars_of(root);
        let t = RemoteTree {
            root: string_of(&cs),
            expanded: Vec::new(),
            children: Vec::new(),
            errors: Vec::new(),
        };
        assert(t@.expanded =~= Set::<Seq<char>>::empty());
        assert(t@.children =~= Map::<Seq<char>, Seq<EntryView>>::empty());
        assert(t@.errors =~= Map::<Seq<char>, Seq<char>>::empty());
        t
    }

    /// The root directory.
    pub fn root(&self) -> (r: &str)
        ensures
            r@ == self@.root,
    {
        self.root.as_str()
    }

    /// Replaces the root (once the real remote home directory is known),
    /// carrying the old root's expanded state over to the new one.
    pub fn set_root(&mut self, root: String)
        ensures
            final(self)@ == rerooted(old(self)@, root@),
            final(self).depth_bound() == old(self).depth_bound(),
    {
        let ghost before = self@;
        let was = set_remove(&mut self.expanded, self.root.as_str());
        if was {
            let copy = root.clone();
            set_insert(&mut self.expanded, copy);
        }
        self.root = root;
        assert(self@.expanded =~= (if before.expanded.contains(before.root) {
            before.expanded.remove(before.root).insert(root@)
        } else {
            before.expanded
        }));
        assert(self@.children =~= before.children);
        assert(self@.errors =~= before.errors);
    }

    /// Expands or collapses `dir`. Collapsing asks for nothing; expanding
    /// asks for `dir`'s listing unless it was read before.
    pub fn toggle(&mut self, dir: &str) -> (r: Option<String>)
        ensures
            final(self)@ == toggled(old(self)@, dir@),
            r is Some <==> toggle_requests(old(self)@, dir@),
            r matches Some(s) ==> s@ == dir@,
            final(self).depth_bound() == old(self).depth_bound(),
    {
        let ghost before = self@;
        if set_remove(&mut self.expanded, dir) {
            assert(self@.expanded =~= before.expanded.remove(dir@));
            assert(self@.children =~= before.children);
            assert(self@.errors =~= before.errors);
            return None;
        }
        let cs = chars_of(dir);
        set_insert(&mut self.expanded, string_of(&cs));
        assert(self@.expanded =~= before.expanded.insert(dir@));
        assert(self@.children =~= before.children);
        assert(self@.errors =~= before.errors);
        match kv_get(&self.children, dir) {
            Some(_) => None,
            None => Some(string_of(&cs)),
        }
    }

    /// Stores the result of reading `dir`: a listing is sorted into listing
    /// order and cached, clearing an earlier error; a failure is recorded as
    /// `dir`'s error, keeping `dir` expanded and any listing read before.
    pub fn set_children(&mut self, dir: &str, result: Result<Vec<RemoteEntry>, String>)
        ensures
            final(self)@.root == old(self)@.root,
            final(self)@.expanded == old(self)@.expanded,
            match result {
                Ok(v) => {
                    &&& final(self)@.errors == old(self)@.errors.remove(dir@)
                    &&& final(self)@.children.dom() == old(self)@.children.dom().insert(dir@)
                    &&& stable_sort_of(final(self)@.children[dir@], entries_view(v@))
                    &&& forall|k: Seq<char>| k != dir@ && #[trigger] old(self)@.children.contains_key(k)
                        ==> final(self)@.children[k] == old(self)@.children[k]
                },
                Err(e) => {
                    &&& final(self)@.errors == old(self)@.errors.insert(dir@, e@)
                    &&& final(self)@.children == old(self)@.children
                },
            },
            final(self).depth_bound() == old(self).depth_bound()
                + if result is Ok && !old(self)@.children.contains_key(dir@) { 1int } else { 0int },
    {
        let ghost before = self@;
        kv_remove(&mut self.errors, dir);
        let cs = chars_of(dir);
        match result {
            Ok(entries) => {
                let sorted = sort_entries(&entries);
                kv_put(&mut self.children, string_of(&cs), sorted);
                assert(self@.errors =~= before.errors.remove(dir@));
                assert(self@.children.dom() =~= before.children.dom().insert(dir@));
                assert(self@.expanded =~= before.expanded);
            },
            Err(e) => {
                kv_put(&mut self.errors, string_of(&cs), e);
                assert(self@.errors =~= before.errors.insert(dir@, e@));
                assert(self@.children =~= before.children);
                assert(self@.expanded =~= before.expanded);
            },
        }
    }

    /// Appends to `out` the rows beneath `dir`.
    fn push_children(&self, dir: &str, depth: usize, fuel: usize, out: &mut Vec<TreeRow>)
        requires
            depth + fuel <= usize::MAX,
        ensures
            rows_view(final(out)@) == rows_view(old(out)@) + rows_from(self@, dir@, depth as int, fuel as nat),
        decreases fuel,
    {
        let ghost start = rows_view(out@);
        if fuel == 0 {
            assert(rows_view(out@) =~= start + Seq::<RowView>::empty());
            return;
        }
        match kv_get(&self.children, dir) {
            None => {
                assert(!self@.children.contains_key(dir@));
                assert(rows_view(out@) =~= start + Seq::<RowView>::empty());
            },
            Some(entries) => {
                let ghost es = entries_view(entries@);
                assert(self@.children.contains_key(dir@));
                assert(self@.children[dir@] == es);
                let mut i: usize = 0;
                assert(es.take(0) =~= Seq::<EntryView>::empty());
                assert(rows_view(out@) =~= start + rows_of_entries(self@, es.take(0), depth as int, (fuel - 1) as nat));
                while i < entries.len()
                    invariant
                        i <= entries.len(),
                        es == entries_view(entries@),
                        depth + fuel <= usize::MAX,
                        fuel > 0,
                        rows_view(out@) == start + rows_of_entries(self@, es.take(i as int), depth as int, (fuel - 1) as nat),
                    decreases entries.len() - i,
                {
                    let e = &entries[i];
                    let exp = set_contains(&self.expanded, e.path.as_str());
                    let ghost before_push = rows_view(out@);
                    out.push(TreeRow {
                        path: e.path.clone(),
                        name: e.name.clone(),
                        depth: depth,
                        is_dir: e.is_dir,
                        expanded: exp,
                    });
                    assert(rows_view(out@) =~= before_push.push(row_of(self@, es[i as int], depth as int)));
                    let ghost after_push = rows_view(out@);
                    if e.is_dir && exp {
                        self.push_children(e.path.as_str(), depth + 1, fuel - 1, out);
                    }
                    proof {
                        let pre = es.take(i as int);
                        let post = es.take(i + 1);
                        assert(post.drop_last() =~= pre);
                        assert(post.last() == es[i as int]);
                        let below = if es[i as int].is_dir && self@.expanded.contains(es[i as int].path) {
                            rows_from(self@, es[i as int].path, depth + 1, (fuel - 1) as nat)
                        } else {
                            Seq::<RowView>::empty()
                        };
                        assert(rows_of_entries(self@, post, depth as int, (fuel - 1) as nat)
                            == rows_of_entries(self@, pre, depth as int, (fuel - 1) as nat).push(row_of(self@, es[i as int], depth as int)) + below);
                        assert(rows_view(out@) =~= after_push + below);
                        assert(rows_view(out@) =~= start + rows_of_entries(self@, post, depth as int, (fuel - 1) as nat));
                    }
                    i = i + 1;
                }
                assert(es.take(entries.len() as int) =~= es);
            },
        }
    }

    /// The rows the tree shows: depth first from the root, each listing in
    /// its stored order, descending only into expanded directories.
    pub fn visible_rows(&self) -> (r: Vec<TreeRow>)
        ensures
            rows_view(r@) == self.visible(),
    {
        let mut rows: Vec<TreeRow> = Vec::new();
        self.push_children(self.root.as_str(), 0, self.children.len(), &mut rows);
        assert(rows_view(Seq::<TreeRow>::empty()) =~= Seq::<RowView>::empty());
        assert(rows_view(rows@) =~= self.visible());
        rows
    }

    /// The recorded read error of `dir`, if any.
    pub fn error_for(&self, dir: &str) -> (r: Option<&str>)
        ensures
            r is Some <==> self@.errors.contains_key(dir@),
            r matches Some(s) ==> s@ == self@.errors[dir@],
    {
        match kv_get(&self.errors, dir) {
            Some(e) => Some(e.as_str()),
            None => None,
        }
    }
}

/// `remote_join`: `{base}/{name}`, without doubling a trailing `/` of `base`.
pub open spec fn joined(base: Seq<char>, name: Seq<char>) -> Seq<char> {
    trim_end_char(base, '/') + seq!['/'] + name
}

/// Joins a remote directory and a name with one `/`.
pub fn remote_join(base: &str, name: &str) -> (r: String)
    ensures
        r@ == joined(base@, name@),
{
    let b = chars_of(base);
    let mut t = trim_end_char_chars(&b, '/');
    t.push('/');
    let mut n = chars_of(name);
    t.append(&mut n);
    string_of(&t)
}

/// `base` is the last component of the remote path `path`: what follows its
/// last `/`, the whole path when it has none.
pub open spec fn is_base_of(base: Seq<char>, path: Seq<char>) -> bool {
    &&& base.len() <= path.len()
    &&& base == path.subrange(path.len() - base.len(), path.len() as int)
    &&& forall|i: int| 0 <= i < base.len() ==> base[i] != '/'
    &&& (base.len() == path.len() || path[path.len() - base.len() - 1] == '/')
}

/// The name a downloaded remote file or directory gets locally: the last
/// component of its remote path.
pub fn remote_base_name(path: &str) -> (r: String)
    ensures
        is_base_of(r@, path@),
{
    let cs = chars_of(path);
    let mut k: usize = cs.len();
    while k > 0 && cs[k - 1] != '/'
        invariant
            k <= cs@.len(),
            forall|i: int| k <= i < cs@.len() ==> cs@[i] != '/',
        decreases k,
    {
        k = k - 1;
    }
    let mut out: Vec<char> = Vec::new();
    let mut j: usize = k;
    while j < cs.len()
        invariant
            k <= j <= cs@.len(),
            out@ == cs@.subrange(k as int, j as int),
        decreases cs@.len() - j,
    {
        out.push(cs[j]);
        j = j + 1;
        assert(out@ =~= cs@.subrange(k as int, j as int));
    }
    let r = string_of(&out);
    assert(r@.len() == cs@.len() - k);
    assert forall|i: int| 0 <= i < r@.len() implies r@[i] != '/' by {
        assert(r@[i] == cs@[k + i]);
    }
    r
}

/// What the tab asks of its connection task.
#[derive(Debug, PartialEq)]
pub enum SftpCmd {
    ReadDir(String),
    Upload { local: String, remote_dir: String },
    Download { remote: String, local_dir: String },
}

/// A command by value.
pub enum CmdView {
    ReadDir(Seq<char>),
    Upload { local: Seq<char>, remote_dir: Seq<char> },
    Download { remote: Seq<char>, local_dir: Seq<char> },
}

impl View for SftpCmd {
    type V = CmdView;

    open spec fn view(&self) -> CmdView {
        match self {
            SftpCmd::ReadDir(d) => CmdView::ReadDir(d@),
            SftpCmd::Upload { local, remote_dir } => CmdView::Upload { local: local@, remote_dir: remote_dir@ },
            SftpCmd::Download { remote, local_dir } => CmdView::Download { remote: remote@, local_dir: local_dir@ },
        }
    }
}

/// What handling a message asks the caller to do: send a command to a
/// tab's connection task, expand or collapse a directory of a tab's local
/// tree, or re-read a tab's local tree.
#[derive(Debug, PartialEq)]
pub enum SftpAction {
    Send(String, SftpCmd),
    LocalToggle(String, String),
    ReloadLocal(String),
}

/// An action by value.
pub enum ActionView {
    Send(Seq<char>, CmdView),
    LocalToggle(Seq<char>, Seq<char>),
    ReloadLocal(Seq<char>),
}

impl View for SftpAction {
    type V = ActionView;

    open spec fn view(&self) -> ActionView {
        match self {
            SftpAction::Send(h, c) => ActionView::Send(h@, c@),
            SftpAction::LocalToggle(h, d) => ActionView::LocalToggle(h@, d@),
            SftpAction::ReloadLocal(h) => ActionView::ReloadLocal(h@),
        }
    }
}

/// Actions by value.
pub open spec fn actions_view(s: Seq<SftpAction>) -> Seq<ActionView> {
    s.map_values(|a: SftpAction| a@)
}

/// The messages of an SFTP tab; each names the tab by its host id.
#[derive(Debug)]
pub enum Message {
    Connected(String, Result<String, String>),
    LocalToggle(String, String),
    LocalSelect(String, String),
    RemoteToggle(String, String),
    RemoteDirLoaded(String, String, Result<Vec<RemoteEntry>, String>),
    RemoteSelect(String, String),
    Upload(String),
    Download(String),
    TransferResult(String, Result<(), String>),
    ContextMenuOpen { host_id: String, is_local: bool, path: String },
    ContextMenuClose,
}

/// The host id a message is addressed to (`None` for the one that speaks to
/// every tab).
pub open spec fn message_host(m: Message) -> Option<Seq<char>> {
    match m {
        Message::Connected(h, _) => Some(h@),
        Message::LocalToggle(h, _) => Some(h@),
        Message::LocalSelect(h, _) => Some(h@),
        Message::RemoteToggle(h, _) => Some(h@),
        Message::RemoteDirLoaded(h, _, _) => Some(h@),
        Message::RemoteSelect(h, _) => Some(h@),
        Message::Upload(h) => Some(h@),
        Message::Download(h) => Some(h@),
        Message::TransferResult(h, _) => Some(h@),
        Message::ContextMenuOpen { host_id, .. } => Some(host_id@),
        Message::ContextMenuClose => None,
    }
}

/// The state of one SFTP tab. `local_root` is the root of its local tree
/// (which the caller keeps); `connected` tells whether its connection task is
/// up to take commands.
pub struct SftpTabState {
    pub host_id: String,
    pub local_root: String,
    pub remote_tree: RemoteTree,
    pub selected_local: Option<String>,
    pub selected_remote: Option<String>,
    pub status: Option<(String, bool)>,
    pub context_menu: Option<(bool, String)>,
    pub connected: bool,
}

/// A tab by value.
pub struct TabView {
    pub host_id: Seq<char>,
    pub local_root: Seq<char>,
    pub tree: TreeView,
    pub selected_local: Option<Seq<char>>,
    pub selected_remote: Option<Seq<char>>,
    pub status: Option<(Seq<char>, bool)>,
    pub context_menu: Option<(bool, Seq<char>)>,
    pub connected: bool,
}

/// An optional string by value.
pub open spec fn opt_view(o: Option<String>) -> Option<Seq<char>> {
    match o {
        Some(s) => Some(s@),
        None => None,
    }
}

impl View for SftpTabState {
    type V = TabView;

    open spec fn view(&self) -> TabView {
        TabView {
            host_id: self.host_id@,
            local_root: self.local_root@,
            tree: self.remote_tree@,
            selected_local: opt_view(self.selected_local),
            selected_remote: opt_view(self.selected_remote),
            status: match self.status {
                Some((t, e)) => Some((t@, e)),
                None => None,
            },
            context_menu: match self.context_menu {
                Some((l, p)) => Some((l, p@)),
                None => None,
            },
            connected: self.connected,
        }
    }
}

/// `t` with the remote tree replaced.
pub open spec fn with_tree(t: TabView, tree: TreeView) -> TabView {
    TabView { tree, ..t }
}

/// `t` with the status line replaced.
pub open spec fn with_status(t: TabView, text: Seq<char>, is_error: bool) -> TabView {
    TabView { status: Some((text, is_error)), ..t }
}

/// The tree after `set_root(root)`.
pub open spec fn rerooted(t: TreeView, root: Seq<char>) -> TreeView {
    TreeView {
        root,
        expanded: if t.expanded.contains(t.root) { t.expanded.remove(t.root).insert(root) } else { t.expanded },
        ..t
    }
}

/// The tree after `toggle(dir)`.
pub open spec fn toggled(t: TreeView, dir: Seq<char>) -> TreeView {
    TreeView {
        expanded: if t.expanded.contains(dir) { t.expanded.remove(dir) } else { t.expanded.insert(dir) },
        ..t
    }
}

/// Whether `toggle(dir)` asks for `dir`'s listing.
pub open spec fn toggle_requests(t: TreeView, dir: Seq<char>) -> bool {
    !t.expanded.contains(dir) && !t.children.contains_key(dir)
}

/// A send, when the connection is up.
pub open spec fn send_if(connected: bool, h: Seq<char>, c: CmdView) -> Seq<ActionView> {
    if connected { seq![ActionView::Send(h, c)] } else { Seq::empty() }
}

/// The status text of a failed connection.
pub open spec fn connect_failed_text(e: Seq<char>) -> Seq<char> {
    "SFTP 连接失败: "@ + e
}

/// The status text of a failed transfer.
pub open spec fn transfer_failed_text(e: Seq<char>) -> Seq<char> {
    "传输失败: "@ + e
}

/// What handling `msg` does to a tab `t` (giving `t2`) and which actions it
/// asks for (`a`).
pub open spec fn handled(t: TabView, t2: TabView, msg: Message, a: Seq<ActionView>) -> bool {
    match msg {
        Message::Connected(_, Ok(home)) =>
            t2 == with_tree(t, rerooted(t.tree, home@)) && a == send_if(t.connected, t.host_id, CmdView::ReadDir(home@)),
        Message::Connected(_, Err(e)) =>
            t2 == with_status(t, connect_failed_text(e@), true) && a.len() == 0,
        Message::LocalToggle(h, dir) =>
            t2 == t && a == seq![ActionView::LocalToggle(h@, dir@)],
        Message::LocalSelect(_, p) =>
            t2 == TabView { selected_local: Some(p@), ..t } && a.len() == 0,
        Message::RemoteToggle(_, dir) =>
            t2 == with_tree(t, toggled(t.tree, dir@))
            && a == if toggle_requests(t.tree, dir@) { send_if(t.connected, t.host_id, CmdView::ReadDir(dir@)) } else { Seq::empty() },
        Message::RemoteDirLoaded(_, dir, Ok(v)) =>
            t2.tree.root == t.tree.root && t2.tree.expanded == t.tree.expanded
            && t2.tree.errors == t.tree.errors.remove(dir@)
            && t2.tree.children.dom() == t.tree.children.dom().insert(dir@)
            && stable_sort_of(t2.tree.children[dir@], entries_view(v@))
            && (forall|k: Seq<char>| k != dir@ && #[trigger] t.tree.children.contains_key(k) ==> t2.tree.children[k] == t.tree.children[k])
            && t2 == with_tree(t, t2.tree) && a.len() == 0,
        Message::RemoteDirLoaded(_, dir, Err(e)) =>
            t2 == with_tree(t, TreeView { errors: t.tree.errors.insert(dir@, e@), ..t.tree }) && a.len() == 0,
        Message::RemoteSelect(_, p) =>
            t2 == TabView { selected_remote: Some(p@), ..t } && a.len() == 0,
        Message::Upload(_) =>
            if t.selected_local is Some && t.connected {
                t2 == with_status(t, "正在上传…"@, false)
                && a == seq![ActionView::Send(t.host_id, CmdView::Upload { local: t.selected_local.unwrap(), remote_dir: t.tree.root })]
            } else {
                t2 == t && a.len() == 0
            },
        Message::Download(_) =>
            if t.selected_remote is Some && t.connected {
                t2 == with_status(t, "正在下载…"@, false)
                && a == seq![ActionView::Send(t.host_id, CmdView::Download { remote: t.selected_remote.unwrap(), local_dir: t.local_root })]
            } else {
                t2 == t && a.len() == 0
            },
        Message::TransferResult(_, Ok(())) =>
            t2 == with_status(t, "传输完成"@, false)
            && a == send_if(t.connected, t.host_id, CmdView::ReadDir(t.tree.root)).push(ActionView::ReloadLocal(t.host_id)),
        Message::TransferResult(_, Err(e)) =>
            t2 == with_status(t, transfer_failed_text(e@), true) && a.len() == 0,
        Message::ContextMenuOpen { is_local, path, .. } =>
            t2 == (if is_local {
                TabView { selected_local: Some(path@), context_menu: Some((true, path@)), ..t }
            } else {
                TabView { selected_remote: Some(path@), context_menu: Some((false, path@)), ..t }
            }) && a.len() == 0,
        Message::ContextMenuClose => false,
    }
}

impl SftpTabState {
    /// A fresh tab for `host_id`: nothing selected, no status, not connected,
    /// and the remote tree at `remote_root` with its root expanded (its
    /// listing is asked for once the connection is up).
    pub fn new(host_id: String, local_root: String, remote_root: String) -> (t: Self)
        ensures
            t@.host_id == host_id@,
            t@.local_root == local_root@,
            t@.tree.root == remote_root@,
            t@.tree.expanded == set![remote_root@],
            t@.tree.children == Map::<Seq<char>, Seq<EntryView>>::empty(),
            t@.tree.errors == Map::<Seq<char>, Seq<char>>::empty(),
            t@.selected_local is None,
            t@.selected_remote is None,
            t@.status is None,
            t@.context_menu is None,
            !t@.connected,
    {
        let mut remote_tree = RemoteTree::new(remote_root.as_str());
        let _ = remote_tree.toggle(remote_root.as_str());
        assert(remote_tree@.expanded =~= set![remote_root@]);
        SftpTabState {
            host_id,
            local_root,
            remote_tree,
            selected_local: None,
            selected_remote: None,
            status: None,
            context_menu: None,
            connected: false,
        }
    }

    /// Handles a message addressed to this tab (any message but
    /// `ContextMenuClose`).
    fn route_one(&mut self, msg: Message) -> (r: Vec<SftpAction>)
        requires
            message_host(msg) == Some(old(self)@.host_id),
        ensures
            handled(old(self)@, final(self)@, msg, actions_view(r@)),
    {
        let ghost t = self@;
        let mut out: Vec<SftpAction> = Vec::new();
        match msg {
            Message::Connected(_, Ok(home)) => {
                let h2 = home.clone();
                self.remote_tree.set_root(home);
                assert(self@.tree =~= rerooted(t.tree, h2@));
                if self.connected {
                    out.push(SftpAction::Send(self.host_id.clone(), SftpCmd::ReadDir(h2)));
                    assert(actions_view(out@) =~= send_if(t.connected, t.host_id, CmdView::ReadDir(h2@)));
                } else {
                    assert(actions_view(out@) =~= send_if(t.connected, t.host_id, CmdView::ReadDir(h2@)));
                }
            },
            Message::Connected(_, Err(e)) => {
                let text = concat("SFTP 连接失败: ", e.as_str());
                self.status = Some((text, true));
            },
            Message::LocalToggle(h, dir) => {
                out.push(SftpAction::LocalToggle(h, dir));
                assert(actions_view(out@) =~= seq![out@[0]@]);
            },
            Message::LocalSelect(_, p) => {
                self.selected_local = Some(p);
            },
            Message::RemoteToggle(_, dir) => {
                let ghost req = toggle_requests(t.tree, dir@);
                let need = self.remote_tree.toggle(dir.as_str());
                assert(self@.tree =~= toggled(t.tree, dir@));
                match need {
                    Some(d) => {
                        if self.connected {
                            out.push(SftpAction::Send(self.host_id.clone(), SftpCmd::ReadDir(d)));
                        }
                    },
                    None => {},
                }
                assert(actions_view(out@) =~= if req { send_if(t.connected, t.host_id, CmdView::ReadDir(dir@)) } else { Seq::empty() });
            },
            Message::RemoteDirLoaded(_, dir, result) => {
                self.remote_tree.set_children(dir.as_str(), result);
            },
            Message::RemoteSelect(_, p) => {
                self.selected_remote = Some(p);
            },
            Message::Upload(_) => {
                match &self.selected_local {
                    Some(local) => {
                        if self.connected {
                            let cmd = SftpCmd::Upload { local: local.clone(), remote_dir: self.remote_tree.root().to_owned() };
                            out.push(SftpAction::Send(self.host_id.clone(), cmd));
                            self.status = Some(("正在上传…".to_owned(), false));
                            assert(actions_view(out@) =~= seq![out@[0]@]);
                        }
                    },
                    None => {},
                }
            },
            Message::Download(_) => {
                match &self.selected_remote {
                    Some(remote) => {
                        if self.connected {
                            let cmd = SftpCmd::Download { remote: remote.clone(), local_dir: self.local_root.clone() };
                            out.push(SftpAction::Send(self.host_id.clone(), cmd));
                            self.status = Some(("正在下载…".to_owned(), false));
                            assert(actions_view(out@) =~= seq![out@[0]@]);
                        }
                    },
                    None => {},
                }
            },
            Message::TransferResult(_, result) => {
                match result {
                    Ok(()) => {
                        self.status = Some(("传输完成".to_owned(), false));
                        if self.connected {
                            out.push(SftpAction::Send(self.host_id.clone(), SftpCmd::ReadDir(self.remote_tree.root().to_owned())));
                        }
                        let ghost first = actions_view(out@);
                        assert(first =~= send_if(t.connected, t.host_id, CmdView::ReadDir(t.tree.root)));
                        out.push(SftpAction::ReloadLocal(self.host_id.clone()));
                        assert(actions_view(out@) =~= first.push(ActionView::ReloadLocal(t.host_id)));
                    },
                    Err(e) => {
                        let text = concat("传输失败: ", e.as_str());
                        self.status = Some((text, true));
                    },
                }
            },
            Message::ContextMenuOpen { host_id: _, is_local, path } => {
                if is_local {
                    self.selected_local = Some(path.clone());
                } else {
                    self.selected_remote = Some(path.clone());
                }
                self.context_menu = Some((is_local, path));
            },
            Message::ContextMenuClose => {},
        }
        out
    }
}

/// The index of the first tab of host `h`.
pub open spec fn tab_index(tabs: Seq<SftpTabState>, h: Seq<char>) -> Option<int>
    decreases tabs.len(),
{
    if tabs.len() == 0 {
        None
    } else if tabs[0].host_id@ == h {
        Some(0)
    } else {
        match tab_index(tabs.drop_first(), h) {
            Some(i) => Some(i + 1),
            None => None,
        }
    }
}

proof fn lemma_tab_index(tabs: Seq<SftpTabState>, h: Seq<char>)
    ensures
        match tab_index(tabs, h) {
            Some(i) => 0 <= i < tabs.len() && tabs[i].host_id@ == h
                && forall|j: int| 0 <= j < i ==> tabs[j].host_id@ != h,
            None => forall|j: int| 0 <= j < tabs.len() ==> tabs[j].host_id@ != h,
        },
    decreases tabs.len(),
{
    if tabs.len() > 0 && tabs[0].host_id@ != h {
        lemma_tab_index(tabs.drop_first(), h);
        assert forall|j: int| 0 < j < tabs.len() implies tabs[j] == tabs.drop_first()[j - 1] by {}
    }
}

/// Tabs by value.
pub open spec fn tabs_view(s: Seq<SftpTabState>) -> Seq<TabView> {
    s.map_values(|t: SftpTabState| t@)
}

/// Routes a message to its tab: `ContextMenuClose` closes the context menu
/// of every tab; any other message goes to the first tab of its host id and
/// is dropped when there is none.
pub fn route(tabs: &mut Vec<SftpTabState>, msg: Message) -> (r: Vec<SftpAction>)
    ensures
        final(tabs)@.len() == old(tabs)@.len(),
        match message_host(msg) {
            None => r@.len() == 0 && forall|j: int| 0 <= j < old(tabs)@.len() ==>
                tabs_view(final(tabs)@)[j] == (TabView { context_menu: None, ..tabs_view(old(tabs)@)[j] }),
            Some(h) => match tab_index(old(tabs)@, h) {
                None => r@.len() == 0 && tabs_view(final(tabs)@) == tabs_view(old(tabs)@),
                Some(i) => handled(tabs_view(old(tabs)@)[i], tabs_view(final(tabs)@)[i], msg, actions_view(r@))
                    && forall|j: int| 0 <= j < old(tabs)@.len() && j != i ==>
                    tabs_view(final(tabs)@)[j] == tabs_view(old(tabs)@)[j],
            },
        },
{
    let ghost before = tabs@;
    match msg {
        Message::ContextMenuClose => {
            let mut i: usize = 0;
            while i < tabs.len()
                invariant
                    i <= tabs.len(),
                    tabs@.len() == before.len(),
                    forall|j: int| 0 <= j < i ==> tabs_view(tabs@)[j] == (TabView { context_menu: None, ..tabs_view(before)[j] }),
                    forall|j: int| i <= j < tabs@.len() ==> tabs@[j] == before[j],
                decreases tabs.len() - i,
            {
                let ghost cur = tabs@;
                let mut t = tabs.remove(i);
                t.context_menu = None;
                tabs.insert(i, t);
                assert(tabs@ =~= cur.update(i as int, tabs@[i as int]));
                assert(tabs_view(tabs@)[i as int] == tabs@[i as int]@);
                assert(cur[i as int] == before[i as int]);
                assert(tabs@[i as int]@ =~= (TabView { context_menu: None, ..tabs_view(before)[i as int] }));
                assert forall|j: int| 0 <= j < i + 1 implies tabs_view(tabs@)[j] == (TabView { context_menu: None, ..tabs_view(before)[j] }) by {
                    if j < i {
                        assert(tabs@[j] == cur[j]);
                        assert(tabs_view(cur)[j] == (TabView { context_menu: None, ..tabs_view(before)[j] }));
                    } else {
                        assert(tabs_view(tabs@)[i as int] == tabs@[i as int]@);
                    }
                }
                i = i + 1;
            }
            Vec::new()
        },
        _ => {
            let ghost h = message_host(msg).unwrap();
            proof {
                lemma_tab_index(before, h);
            }
            let mut k: usize = 0;
            let mut found = false;
            while !found && k < tabs.len()
                invariant
                    k <= tabs.len(),
                    tabs@ == before,
                    forall|j: int| 0 <= j < k ==> tabs@[j].host_id@ != h,
                    found ==> k < tabs.len() && tabs@[k as int].host_id@ == h,
                    message_host(msg) == Some(h),
                decreases tabs.len() - k + if found { 0int } else { 1int },
            {
                if message_is_for(&msg, tabs[k].host_id.as_str()) {
                    found = true;
                } else {
                    k = k + 1;
                }
            }
            if !found {
                return Vec::new();
            }
            assert(tab_index(before, h) == Some(k as int));
            let mut t = tabs.remove(k);
            let r = t.route_one(msg);
            tabs.insert(k, t);
            assert(tabs@ =~= before.update(k as int, tabs@[k as int]));
            r
        },
    }
}

/// Whether `msg` is addressed to host `host`.
fn message_is_for(msg: &Message, host: &str) -> (r: bool)
    ensures
        r == (message_host(*msg) == Some(host@)),
{
    let h: &String = match msg {
        Message::Connected(h, _) => h,
        Message::LocalToggle(h, _) => h,
        Message::LocalSelect(h, _) => h,
        Message::RemoteToggle(h, _) => h,
        Message::RemoteDirLoaded(h, _, _) => h,
        Message::RemoteSelect(h, _) => h,
        Message::Upload(h) => h,
        Message::Download(h) => h,
        Message::TransferResult(h, _) => h,
        Message::ContextMenuOpen { host_id, .. } => host_id,
        Message::ContextMenuClose => {
            return false;
        },
    };
    str_eq(h.as_str(), host)
}

/// Toggling a directory twice gives the tree back.
pub proof fn law_toggle_twice(t: TreeView, dir: Seq<char>)
    ensures
        toggled(toggled(t, dir), dir) == t,
{
    let t2 = toggled(toggled(t, dir), dir);
    assert(t2.expanded =~= t.expanded);
}

/// Collapsing an expanded directory never asks for a listing, and expanding
/// it again asks for one exactly when none was ever stored.
pub proof fn law_reopen_requests_only_without_listing(t: TreeView, dir: Seq<char>)
    requires
        t.expanded.contains(dir),
    ensures
        !toggle_requests(t, dir),
        toggle_requests(toggled(t, dir), dir) <==> !t.children.contains_key(dir),
{
}

/// Re-rooting carries the expanded state of the old root to the new root, and
/// expands nothing else.
pub proof fn law_reroot_carries_expansion(t: TreeView, root: Seq<char>)
    ensures
        rerooted(t, root).expanded.contains(root) <==> (t.expanded.contains(t.root) || t.expanded.contains(root)),
        forall|k: Seq<char>| k != root && k != t.root ==> (rerooted(t, root).expanded.contains(k) <==> t.expanded.contains(k)),
        rerooted(t, root).root == root,
{
}

/// In listing order every directory comes before every file.
pub proof fn law_directories_first(s: Seq<EntryView>)
    requires
        sorted_entries(s),
    ensures
        forall|i: int, j: int| 0 <= i < j < s.len() && (#[trigger] s[j]).is_dir ==> (#[trigger] s[i]).is_dir,
{
    assert forall|i: int, j: int| 0 <= i < j < s.len() && (#[trigger] s[j]).is_dir implies (#[trigger] s[i]).is_dir by {
        assert(entry_le(s[i], s[j]));
    }
}


/// Names compare by their first differing character, whatever their
/// lengths: the name with the smaller character there comes first.
pub proof fn law_names_ordered_at_first_difference(a: Seq<char>, b: Seq<char>, k: int)
    requires
        0 <= k < a.len(),
        k < b.len(),
        a.take(k) == b.take(k),
        a[k] < b[k],
    ensures
        name_le(a, b),
        !name_le(b, a),
    decreases k,
{
    if k > 0 {
        assert(a[0] == a.take(k)[0] && b[0] == b.take(k)[0]);
        let a1 = a.drop_first();
        let b1 = b.drop_first();
        assert(a1.take(k - 1) =~= a.take(k).drop_first());
        assert(b1.take(k - 1) =~= b.take(k).drop_first());
        law_names_ordered_at_first_difference(a1, b1, k - 1);
    }
}

/// Equal names compare as equal: each comes no later than the other.
pub proof fn law_equal_names_tie(a: Seq<char>)
    ensures
        name_le(a, a),
    decreases a.len(),
{
    if a.len() > 0 {
        law_equal_names_tie(a.drop_first());
    }
}

/// A name comes before every longer name it is a beginning of.
pub proof fn law_prefix_comes_first(a: Seq<char>, b: Seq<char>)
    requires
        a.len() < b.len(),
        b.take(a.len() as int) == a,
    ensures
        name_le(a, b),
        !name_le(b, a),
    decreases a.len(),
{
    if a.len() > 0 {
        assert(a[0] == b.take(a.len() as int)[0]);
        let a1 = a.drop_first();
        let b1 = b.drop_first();
        assert(b1.take(a1.len() as int) =~= b.take(a.len() as int).drop_first());
        law_prefix_comes_first(a1, b1);
    }
}

/// In a listing in listing order, two entries of the same kind stand in the
/// order of their names: where their names first differ, the earlier entry
/// has the smaller character, and a name that is a beginning of the other
/// stands first.
pub proof fn law_same_kind_by_name(s: Seq<EntryView>, i: int, j: int, k: int)
    requires
        sorted_entries(s),
        0 <= i < j < s.len(),
        s[i].is_dir == s[j].is_dir,
    ensures
        0 <= k < s[i].name.len() && k < s[j].name.len() && s[i].name.take(k) == s[j].name.take(k)
            && s[i].name[k] != s[j].name[k] ==> s[i].name[k] < s[j].name[k],
        !(s[j].name.len() < s[i].name.len() && s[i].name.take(s[j].name.len() as int) == s[j].name),
{
    assert(entry_le(s[i], s[j]));
    let a = s[i].name;
    let b = s[j].name;
    if 0 <= k < a.len() && k < b.len() && a.take(k) == b.take(k) && a[k] != b[k] && b[k] < a[k] {
        law_names_ordered_at_first_difference(b, a, k);
    }
    if b.len() < a.len() && a.take(b.len() as int) == b {
        law_prefix_comes_first(b, a);
    }
}

/// Row `r` shows an entry of the listing of `dir` at `depth`, or, deeper, an
/// entry of the listing of an expanded directory.
pub open spec fn row_listed(t: TreeView, r: RowView, dir: Seq<char>, depth: int) -> bool {
    exists|d: Seq<char>, e: EntryView| #![trigger t.children[d].contains(e)]
        t.children.contains_key(d) && t.children[d].contains(e) && e.path == r.path
        && ((d == dir && r.depth == depth) || (t.expanded.contains(d) && r.depth > depth))
}

proof fn lemma_rows_from_listed(t: TreeView, dir: Seq<char>, depth: int, fuel: nat)
    ensures
        forall|k: int| 0 <= k < rows_from(t, dir, depth, fuel).len() ==> row_listed(
            t, #[trigger] rows_from(t, dir, depth, fuel)[k], dir, depth),
    decreases fuel, 0nat,
{
    if fuel > 0 && t.children.contains_key(dir) {
        let s = t.children[dir];
        assert forall|i: int| 0 <= i < s.len() implies t.children[dir].contains(#[trigger] s[i]) by {}
        lemma_rows_of_entries_listed(t, dir, s, depth, (fuel - 1) as nat);
        assert(rows_from(t, dir, depth, fuel) == rows_of_entries(t, s, depth, (fuel - 1) as nat));
    }
}

proof fn lemma_rows_of_entries_listed(t: TreeView, dir: Seq<char>, s: Seq<EntryView>, depth: int, fuel: nat)
    requires
        t.children.contains_key(dir),
        forall|i: int| 0 <= i < s.len() ==> t.children[dir].contains(#[trigger] s[i]),
    ensures
        forall|k: int| 0 <= k < rows_of_entries(t, s, depth, fuel).len() ==> row_listed(
            t, #[trigger] rows_of_entries(t, s, depth, fuel)[k], dir, depth),
    decreases fuel, s.len(),
{
    if s.len() > 0 {
        let w = s.drop_last();
        let e = s.last();
        assert forall|i: int| 0 <= i < w.len() implies t.children[dir].contains(#[trigger] w[i]) by {
            assert(w[i] == s[i]);
        }
        assert(t.children[dir].contains(s[s.len() - 1]));
        lemma_rows_of_entries_listed(t, dir, w, depth, fuel);
        let front = rows_of_entries(t, w, depth, fuel);
        let row = row_of(t, e, depth);
        let open = e.is_dir && t.expanded.contains(e.path);
        let below = if open { rows_from(t, e.path, depth + 1, fuel) } else { Seq::empty() };
        if open {
            lemma_rows_from_listed(t, e.path, depth + 1, fuel);
        }
        let all = rows_of_entries(t, s, depth, fuel);
        assert(all == front.push(row) + below);
        assert forall|k: int| 0 <= k < all.len() implies row_listed(t, #[trigger] all[k], dir, depth) by {
            if k < front.len() {
                assert(all[k] == front[k]);
                assert(row_listed(t, front[k], dir, depth));
            } else if k == front.len() {
                assert(all[k] == row);
                assert(t.children[dir].contains(e) && e.path == row.path && row.depth == depth);
            } else {
                let b = k - front.len() - 1;
                assert(all[k] == below[b]);
                assert(row_listed(t, below[b], e.path, depth + 1));
                let (d, x) = choose|d: Seq<char>, x: EntryView| #![trigger t.children[d].contains(x)]
                    t.children.contains_key(d) && t.children[d].contains(x) && x.path == below[b].path
                    && ((d == e.path && below[b].depth == depth + 1) || (t.expanded.contains(d) && below[b].depth > depth + 1));
                assert(t.children.contains_key(d) && t.children[d].contains(x) && x.path == all[k].path
                    && t.expanded.contains(d) && all[k].depth > depth);
            }
        }
    }
}

/// `rank` orders the held listings so that none leads back up: an expanded
/// directory named in the listing of `d`, whose own listing is held, ranks
/// below `d`.
pub open spec fn ranked(t: TreeView, rank: spec_fn(Seq<char>) -> nat) -> bool {
    forall|d: Seq<char>, i: int| #![trigger t.children[d][i]]
        t.children.contains_key(d) && 0 <= i < t.children[d].len()
            && t.children[d][i].is_dir && t.expanded.contains(t.children[d][i].path)
            && t.children.contains_key(t.children[d][i].path)
            ==> rank(t.children[d][i].path) < rank(d)
}

proof fn lemma_rows_from_settle(t: TreeView, rank: spec_fn(Seq<char>) -> nat, dir: Seq<char>, depth: int, fuel: nat, more: nat)
    requires
        ranked(t, rank),
        t.children.contains_key(dir) ==> rank(dir) < fuel,
    ensures
        rows_from(t, dir, depth, fuel + more) == rows_from(t, dir, depth, fuel),
    decreases fuel, 0nat,
{
    if t.children.contains_key(dir) {
        let s = t.children[dir];
        let g = (fuel - 1) as nat;
        assert forall|i: int| 0 <= i < s.len() && s[i].is_dir && t.expanded.contains(s[i].path)
            && t.children.contains_key(s[i].path) implies rank(#[trigger] s[i].path) < g by {
            assert(rank(t.children[dir][i].path) < rank(dir));
        }
        lemma_rows_of_entries_settle(t, rank, s, depth, g, more);
        assert((fuel + more - 1) as nat == g + more);
    }
}

proof fn lemma_rows_of_entries_settle(t: TreeView, rank: spec_fn(Seq<char>) -> nat, s: Seq<EntryView>, depth: int, fuel: nat, more: nat)
    requires
        ranked(t, rank),
        forall|i: int| 0 <= i < s.len() && s[i].is_dir && t.expanded.contains(s[i].path)
            && t.children.contains_key(s[i].path) ==> rank(#[trigger] s[i].path) < fuel,
    ensures
        rows_of_entries(t, s, depth, fuel + more) == rows_of_entries(t, s, depth, fuel),
    decreases fuel, s.len(),
{
    if s.len() > 0 {
        let w = s.drop_last();
        let e = s.last();
        assert forall|i: int| 0 <= i < w.len() && w[i].is_dir && t.expanded.contains(w[i].path)
            && t.children.contains_key(w[i].path) implies rank(#[trigger] w[i].path) < fuel by {
            assert(w[i] == s[i]);
        }
        lemma_rows_of_entries_settle(t, rank, w, depth, fuel, more);
        if e.is_dir && t.expanded.contains(e.path) {
            assert(e == s[s.len() - 1]);
            lemma_rows_from_settle(t, rank, e.path, depth + 1, fuel, more);
        }
    }
}

/// When no held listing leads back up to a directory above it, the rows the
/// tree shows are the whole depth-first walk: letting the walk descend any
/// further finds no more rows.
pub proof fn law_visible_is_whole_walk(tree: &RemoteTree, rank: spec_fn(Seq<char>) -> nat, fuel: nat)
    requires
        ranked(tree@, rank),
        forall|d: Seq<char>| #[trigger] tree@.children.contains_key(d) ==> rank(d) < tree@.children.dom().len(),
        fuel >= tree.depth_bound(),
    ensures
        tree.visible() == rows_from(tree@, tree@.root, 0, fuel),
{
    tree.lemma_depth_bound();
    lemma_rows_from_settle(tree@, rank, tree@.root, 0, tree.depth_bound(), (fuel - tree.depth_bound()) as nat);
}

/// The tree shows only what is open: a row at depth 0 is an entry of the
/// root's listing, any deeper row an entry of the listing of an expanded
/// directory.
pub proof fn law_rows_only_under_expanded_dirs(t: TreeView, fuel: nat)
    ensures
        forall|k: int| 0 <= k < rows_from(t, t.root, 0, fuel).len() ==> row_listed(
            t, #[trigger] rows_from(t, t.root, 0, fuel)[k], t.root, 0),
{
    lemma_rows_from_listed(t, t.root, 0, fuel);
}

} // verus!
