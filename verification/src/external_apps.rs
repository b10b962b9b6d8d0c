//! The "open with another application" table: lower-case file extension
//! (without the dot) to the name of the application that opens it, and the
//! lookup of a path's extension in it.
use vstd::prelude::*;
use crate::kv::{lookup, kv_get, kv_put};
use crate::text::{ascii_lower, ascii_lower_chars, chars_of, string_of, trim_end_char, trim_end_char_chars};

verus! {

/// The extension table.
#[derive(Debug)]
pub struct ExternalAppsConfig {
    by_extension: Vec<(String, String)>,
}

impl View for ExternalAppsConfig {
    type V = Map<Seq<char>, Seq<char>>;

    closed spec fn view(&self) -> Map<Seq<char>, Seq<char>> {
        Map::new(
            |k: Seq<char>| lookup(self.by_extension@, k) is Some,
            |k: Seq<char>| lookup(self.by_extension@, k).unwrap()@,
        )
    }
}

impl Default for ExternalAppsConfig {
    fn default() -> (r: Self)
        ensures
            r@ == Map::<Seq<char>, Seq<char>>::empty(),
    {
        let r = ExternalAppsConfig { by_extension: Vec::new() };
        assert(r@ =~= Map::<Seq<char>, Seq<char>>::empty());
        r
    }
}

/// The index of the last `c` in `s` (-1 when there is none).
pub open spec fn last_index(s: Seq<char>, c: char) -> int
    decreases s.len(),
{
    if s.len() == 0 {
        -1
    } else if s.last() == c {
        s.len() - 1
    } else {
        last_index(s.drop_last(), c)
    }
}

/// The file name of a `/`-separated path as `Path::file_name` reads it: the
/// last component once trailing `/` and `.` components are dropped; none
/// when there is no component left or it is `..`.
pub open spec fn file_name_of(p: Seq<char>) -> Option<Seq<char>>
    decreases p.len(),
{
    let q = trim_end_char(p, '/');
    if q.len() == 0 {
        None
    } else {
        let k = last_index(q, '/');
        let seg = q.subrange(k + 1, q.len() as int);
        if seg == seq!['.'] {
            if k < 0 {
                None
            } else {
                proof {
                    lemma_trim_end_char_prefix(p, '/');
                    lemma_last_index(q, '/');
                }
                file_name_of(q.subrange(0, k))
            }
        } else if seg == seq!['.', '.'] {
            None
        } else {
            Some(seg)
        }
    }
}

/// The extension of a file name as `Path::extension` reads it: what follows
/// its last `.`, unless there is no `.` or the only one starts the name.
pub open spec fn extension_of(f: Seq<char>) -> Option<Seq<char>> {
    let i = last_index(f, '.');
    if i <= 0 { None } else { Some(f.subrange(i + 1, f.len() as int)) }
}

/// The extension of a path, if it has one.
pub open spec fn path_extension(p: Seq<char>) -> Option<Seq<char>> {
    match file_name_of(p) {
        Some(f) => extension_of(f),
        None => None,
    }
}

/// The application table `m` names for the extension of `path`, the
/// extension compared in ASCII lower case.
pub open spec fn app_for_path(m: Map<Seq<char>, Seq<char>>, path: Seq<char>) -> Option<Seq<char>> {
    match path_extension(path) {
        None => None,
        Some(e) => if m.contains_key(ascii_lower(e)) { Some(m[ascii_lower(e)]) } else { None },
    }
}

/// The lookup ignores the ASCII case of extensions: two paths whose
/// extensions differ only in case find the same application.
pub proof fn law_lookup_ignores_case(m: Map<Seq<char>, Seq<char>>, p1: Seq<char>, p2: Seq<char>)
    requires
        path_extension(p1) is Some,
        path_extension(p2) is Some,
        ascii_lower(path_extension(p1).unwrap()) == ascii_lower(path_extension(p2).unwrap()),
    ensures
        app_for_path(m, p1) == app_for_path(m, p2),
{
}

/// After an application is set for a lower-case extension, every path with
/// that extension, in any case, finds it.
pub proof fn law_set_then_lookup(m: Map<Seq<char>, Seq<char>>, ext: Seq<char>, app: Seq<char>, path: Seq<char>)
    requires
        path_extension(path) is Some,
        ascii_lower(path_extension(path).unwrap()) == ext,
    ensures
        app_for_path(m.insert(ext, app), path) == Some(app),
{
}

/// Trimming a trailing character keeps a prefix that does not end with it.
pub proof fn lemma_trim_end_char_prefix(s: Seq<char>, c: char)
    ensures
        trim_end_char(s, c).len() <= s.len(),
        trim_end_char(s, c) == s.subrange(0, trim_end_char(s, c).len() as int),
        trim_end_char(s, c).len() > 0 ==> trim_end_char(s, c).last() != c,
    decreases s.len(),
{
    if s.len() > 0 && s.last() == c {
        lemma_trim_end_char_prefix(s.drop_last(), c);
        assert(s.drop_last().subrange(0, trim_end_char(s, c).len() as int) =~= s.subrange(0, trim_end_char(s, c).len() as int));
    } else {
        assert(s.subrange(0, s.len() as int) =~= s);
    }
}

/// The last index of `c` is an index of `c` with none after it.
pub proof fn lemma_last_index(s: Seq<char>, c: char)
    ensures
        -1 <= last_index(s, c) < s.len(),
        last_index(s, c) >= 0 ==> s[last_index(s, c)] == c,
        forall|k: int| last_index(s, c) < k < s.len() ==> s[k] != c,
    decreases s.len(),
{
    if s.len() > 0 && s.last() != c {
        lemma_last_index(s.drop_last(), c);
        assert forall|k: int| last_index(s, c) < k < s.len() implies s[k] != c by {
            if k < s.len() - 1 {
                assert(s[k] == s.drop_last()[k]);
            }
        }
    }
}

/// The index of the last `c` in `s`, if any.
fn last_index_exec(s: &Vec<char>, c: char) -> (r: Option<usize>)
    ensures
        match r {
            Some(i) => i as int == last_index(s@, c),
            None => last_index(s@, c) == -1,
        },
{
    let mut i: usize = s.len();
    assert(s@.subrange(0, i as int) =~= s@);
    while i > 0
        invariant
            i <= s.len(),
            last_index(s@, c) == last_index(s@.subrange(0, i as int), c),
        decreases i,
    {
        let ghost pre = s@.subrange(0, i as int);
        if s[i - 1] == c {
            assert(pre.last() == c);
            return Some(i - 1);
        }
        assert(pre.drop_last() =~= s@.subrange(0, i - 1));
        i = i - 1;
    }
    None
}

/// The characters of `s` from `a` to `b`.
fn sub_chars(s: &Vec<char>, a: usize, b: usize) -> (r: Vec<char>)
    requires
        a <= b <= s.len(),
    ensures
        r@ == s@.subrange(a as int, b as int),
{
    let mut r: Vec<char> = Vec::new();
    let mut k: usize = a;
    while k < b
        invariant
            a <= k <= b <= s.len(),
            r@ == s@.subrange(a as int, k as int),
        decreases b - k,
    {
        r.push(s[k]);
        k = k + 1;
        assert(r@ =~= s@.subrange(a as int, k as int));
    }
    r
}

/// The file name of a path.
fn file_name_chars(p: &Vec<char>) -> (r: Option<Vec<char>>)
    ensures
        match r {
            Some(f) => file_name_of(p@) == Some(f@),
            None => file_name_of(p@) is None,
        },
    decreases p.len(),
{
    let q = trim_end_char_chars(p, '/');
    proof {
        lemma_trim_end_char_prefix(p@, '/');
    }
    if q.len() == 0 {
        return None;
    }
    let k = last_index_exec(&q, '/');
    proof {
        lemma_last_index(q@, '/');
    }
    let start: usize = match k {
        Some(i) => i + 1,
        None => 0,
    };
    let seg = sub_chars(&q, start, q.len());
    let is_dot = seg.len() == 1 && seg[0] == '.';
    let is_dotdot = seg.len() == 2 && seg[0] == '.' && seg[1] == '.';
    proof {
        if is_dot {
            assert(seg@ =~= seq!['.']);
        } else {
            assert(seg@ != seq!['.']);
        }
        if is_dotdot {
            assert(seg@ =~= seq!['.', '.']);
        } else {
            assert(seg@ != seq!['.', '.']);
        }
    }
    if is_dot {
        match k {
            None => None,
            Some(i) => {
                let head = sub_chars(&q, 0, i);
                file_name_chars(&head)
            },
        }
    } else if is_dotdot {
        None
    } else {
        Some(seg)
    }
}

/// The extension of a path, as `Path::extension` gives it.
pub fn path_extension_of(path: &str) -> (r: Option<String>)
    ensures
        match r {
            Some(e) => path_extension(path@) == Some(e@),
            None => path_extension(path@) is None,
        },
{
    let p = chars_of(path);
    match file_name_chars(&p) {
        None => None,
        Some(f) => {
            let i = last_index_exec(&f, '.');
            proof {
                lemma_last_index(f@, '.');
            }
            match i {
                None => None,
                Some(0) => None,
                Some(k) => {
                    let e = sub_chars(&f, k + 1, f.len());
                    Some(string_of(&e))
                },
            }
        },
    }
}

impl ExternalAppsConfig {
    /// The table's (extension, application) pairs; of two pairs with the same
    /// extension the later one counts.
    pub fn entries(&self) -> (r: &[(String, String)])
        ensures
            self@ == Map::new(
                |k: Seq<char>| lookup(r@, k) is Some,
                |k: Seq<char>| lookup(r@, k).unwrap()@,
            ),
    {
        self.by_extension.as_slice()
    }

    /// Sets the application for an extension (replacing an earlier one).
    pub fn insert(&mut self, ext: String, app: String)
        ensures
            final(self)@ == old(self)@.insert(ext@, app@),
    {
        let ghost before = self@;
        let ghost av = app@;
        kv_put(&mut self.by_extension, ext, app);
        assert(self@ =~= before.insert(ext@, av));
    }

    /// `lookup_for_path`: the application configured for the extension of
    /// `path`, compared in ASCII lower case; none when the path has no
    /// extension or the table has no entry for it.
    pub fn lookup_for_path(&self, path: &str) -> (r: Option<&str>)
        ensures
            match r {
                Some(a) => app_for_path(self@, path@) == Some(a@),
                None => app_for_path(self@, path@) is None,
            },
    {
        match path_extension_of(path) {
            None => None,
            Some(e) => {
                let ec = chars_of(e.as_str());
                let lower = string_of(&ascii_lower_chars(&ec));
                match kv_get(&self.by_extension, lower.as_str()) {
                    Some(a) => Some(a.as_str()),
                    None => None,
                }
            },
        }
    }
}

} // verus!
