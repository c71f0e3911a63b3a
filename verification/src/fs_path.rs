//! Paths modelled as ordered lists of components.
//!
//! A path such as `/videos/a.mp4` is held as the components
//! `["/", "videos", "a.mp4"]`. Component-wise prefixing gives the
//! descendant relation between paths, and the extension of a path is read
//! from its last component.

use vstd::prelude::*;
use vstd::string::StrSliceExecFns;

verus! {

/// A filesystem path, as the ordered list of its components.
#[derive(Debug, PartialEq, Eq)]
pub struct FsPath {
    pub segments: Vec<String>,
}

impl View for FsPath {
    type V = Seq<Seq<char>>;

    open spec fn view(&self) -> Seq<Seq<char>> {
        self.segments.deep_view()
    }
}

impl DeepView for FsPath {
    type V = Seq<Seq<char>>;

    open spec fn deep_view(&self) -> Seq<Seq<char>> {
        self.view()
    }
}

/// `a` names the same path as, or an ancestor of, the path named by `b`:
/// the components of `a` are a prefix of the components of `b`.
pub open spec fn is_prefix_of(a: Seq<Seq<char>>, b: Seq<Seq<char>>) -> bool {
    a.len() <= b.len() && forall|i: int| 0 <= i < a.len() ==> a[i] == b[i]
}

/// ASCII lower-casing of a single character; other characters are unchanged.
pub open spec fn lower_char(c: char) -> char {
    if 65 <= c as u32 && c as u32 <= 90 {
        ((c as u32 + 32) as u8) as char
    } else {
        c
    }
}

/// Character sequences that are equal once ASCII letters are lower-cased.
pub open spec fn eq_ignore_ascii_case(a: Seq<char>, b: Seq<char>) -> bool {
    a.len() == b.len() && forall|i: int| 0 <= i < a.len() ==> lower_char(a[i]) == lower_char(b[i])
}

/// The extension of the file name `name`, scanning for a dot at position
/// `i` or earlier. A dot in the very first position starts a hidden file
/// name, not an extension.
pub open spec fn extension_from(name: Seq<char>, i: int) -> Seq<char>
    decreases i,
{
    if i < 1 || i >= name.len() {
        Seq::empty()
    } else if name[i] == '.' {
        name.subrange(i + 1, name.len() as int)
    } else {
        extension_from(name, i - 1)
    }
}

/// The extension of the file name `name`: what follows its last dot, where
/// a dot in the first position does not count. Empty when there is none.
pub open spec fn extension_of(name: Seq<char>) -> Seq<char> {
    extension_from(name, name.len() - 1)
}

/// The extension of a path: the extension of its last component, empty for
/// a path with no components.
pub open spec fn path_extension(p: Seq<Seq<char>>) -> Seq<char> {
    if p.len() == 0 {
        Seq::empty()
    } else {
        extension_of(p.last())
    }
}

/// No two elements of `s` name the same path.
pub open spec fn unique_paths(s: Seq<Seq<Seq<char>>>) -> bool {
    forall|i: int, j: int| 0 <= i < j < s.len() ==> s[i] != s[j]
}

/// ASCII lower-casing of a single character, executably.
pub fn lower_char_exec(c: char) -> (r: char)
    ensures
        r == lower_char(c),
{
    let u: u32 = c as u32;
    if 65 <= u && u <= 90 {
        ((u + 32) as u8) as char
    } else {
        c
    }
}

/// Scanning down from `i`, once every position in `(d, i]` is known to be
/// free of dots, the extension is settled by the dot at `d`.
proof fn lemma_extension_from_dot(name: Seq<char>, d: int, i: int)
    requires
        1 <= d <= i < name.len(),
        name[d] == '.',
        forall|j: int| d < j <= i ==> name[j] != '.',
    ensures
        extension_from(name, i) == name.subrange(d + 1, name.len() as int),
    decreases i,
{
    if i > d {
        lemma_extension_from_dot(name, d, i - 1);
    }
}

/// A name with no dot beyond its first position has no extension.
proof fn lemma_extension_from_none(name: Seq<char>, i: int)
    requires
        i < name.len(),
        forall|j: int| 1 <= j <= i ==> name[j] != '.',
    ensures
        extension_from(name, i) == Seq::<char>::empty(),
    decreases i,
{
    if i >= 1 {
        lemma_extension_from_none(name, i - 1);
    }
}

/// Whether the extension of the file name `name` equals `ext` up to ASCII
/// case.
pub fn extension_matches_ci(name: &str, ext: &str) -> (r: bool)
    ensures
        r == eq_ignore_ascii_case(extension_of(name@), ext@),
{
    let n: usize = name.unicode_len();
    let e_len: usize = ext.unicode_len();
    // Find the last dot at a position >= 1, if any.
    let mut dot: usize = 0;
    let mut i: usize = n;
    while i > 1 && dot == 0
        invariant
            i <= n,
            n == name@.len(),
            dot == 0 ==> forall|j: int| i <= j < n ==> name@[j] != '.',
            dot != 0 ==> (1 <= dot < n && name@[dot as int] == '.' && forall|j: int|
                dot < j < n ==> name@[j] != '.'),
        decreases i,
    {
        i = i - 1;
        if name.get_char(i) == '.' {
            dot = i;
        }
    }
    if dot == 0 {
        proof {
            if n >= 1 {
                lemma_extension_from_none(name@, n as int - 1);
            }
            assert(extension_of(name@) =~= Seq::<char>::empty());
        }
        return e_len == 0;
    }
    proof {
        lemma_extension_from_dot(name@, dot as int, n as int - 1);
    }
    let ext_len: usize = n - dot - 1;
    if ext_len != e_len {
        assert(extension_of(name@).len() != ext@.len());
        return false;
    }
    let mut k: usize = 0;
    while k < ext_len
        invariant
            n == name@.len(),
            e_len == ext@.len(),
            1 <= dot < n,
            ext_len == n - dot - 1,
            ext_len == e_len,
            extension_of(name@) == name@.subrange(dot as int + 1, n as int),
            0 <= k <= ext_len,
            forall|j: int|
                0 <= j < k ==> lower_char(extension_of(name@)[j]) == lower_char(ext@[j]),
        decreases ext_len - k,
    {
        let a: char = name.get_char(dot + 1 + k);
        let b: char = ext.get_char(k);
        if lower_char_exec(a) != lower_char_exec(b) {
            assert(extension_of(name@)[k as int] == a);
            return false;
        }
        assert(extension_of(name@)[k as int] == a);
        k = k + 1;
    }
    true
}

/// Whether `v` holds a path equal to `p`.
pub fn vec_contains_path(v: &Vec<FsPath>, p: &FsPath) -> (r: bool)
    ensures
        r == v.deep_view().contains(p@),
{
    let n: usize = v.len();
    let mut i: usize = 0;
    while i < n
        invariant
            n == v.len(),
            v.deep_view().len() == v.len(),
            0 <= i <= n,
            forall|j: int| 0 <= j < i ==> v.deep_view()[j] != p@,
        decreases n - i,
    {
        if v[i].path_eq(p) {
            assert(v.deep_view()[i as int] == p@);
            return true;
        }
        i = i + 1;
    }
    assert(!v.deep_view().contains(p@));
    false
}

/// Compare two strings for equality of their character sequences.
pub fn str_eq(a: &str, b: &str) -> (r: bool)
    ensures
        r == (a@ == b@),
{
    let a_len: usize = a.unicode_len();
    let b_len: usize = b.unicode_len();
    if a_len != b_len {
        assert(a@.len() != b@.len());
        return false;
    }
    let mut i: usize = 0;
    while i < a_len
        invariant
            a_len == a@.len(),
            b_len == b@.len(),
            a_len == b_len,
            0 <= i <= a_len,
            forall|j: int| 0 <= j < i ==> a@[j] == b@[j],
        decreases a_len - i,
    {
        if a.get_char(i) != b.get_char(i) {
            return false;
        }
        i = i + 1;
    }
    proof {
        assert(a@ =~= b@);
    }
    true
}

impl FsPath {
    /// Build a path from its components.
    pub fn from_segments(segments: Vec<String>) -> (r: FsPath)
        ensures
            r@ == segments.deep_view(),
    {
        FsPath { segments }
    }

    /// The number of components.
    pub fn len(&self) -> (r: usize)
        ensures
            r == self@.len(),
    {
        self.segments.len()
    }

    /// Whether this path and `other` name the same path.
    pub fn path_eq(&self, other: &FsPath) -> (r: bool)
        ensures
            r == (self@ == other@),
    {
        if self.segments.len() != other.segments.len() {
            assert(self@.len() != other@.len());
            return false;
        }
        let n: usize = self.segments.len();
        let mut i: usize = 0;
        while i < n
            invariant
                n == self@.len(),
                n == other@.len(),
                self@.len() == self.segments.len(),
                other@.len() == other.segments.len(),
                0 <= i <= n,
                forall|j: int| 0 <= j < i ==> self@[j] == other@[j],
        decreases n - i,
        {
            if !str_eq(self.segments[i].as_str(), other.segments[i].as_str()) {
                assert(self@[i as int] != other@[i as int]);
                return false;
            }
            i = i + 1;
        }
        proof {
            assert(self@ =~= other@);
        }
        true
    }

    /// Whether this path is the same as, or an ancestor of, `other`.
    pub fn is_prefix_of(&self, other: &FsPath) -> (r: bool)
        ensures
            r == is_prefix_of(self@, other@),
    {
        if self.segments.len() > other.segments.len() {
            return false;
        }
        let n: usize = self.segments.len();
        let mut i: usize = 0;
        while i < n
            invariant
                n == self@.len(),
                self@.len() <= other@.len(),
                self@.len() == self.segments.len(),
                other@.len() == other.segments.len(),
                0 <= i <= n,
                forall|j: int| 0 <= j < i ==> self@[j] == other@[j],
        decreases n - i,
        {
            if !str_eq(self.segments[i].as_str(), other.segments[i].as_str()) {
                assert(self@[i as int] != other@[i as int]);
                return false;
            }
            i = i + 1;
        }
        true
    }
}

impl Clone for FsPath {
    fn clone(&self) -> (r: Self)
        ensures
            r@ == self@,
    {
        let n: usize = self.segments.len();
        let mut segs: Vec<String> = Vec::new();
        let mut i: usize = 0;
        while i < n
            invariant
                n == self.segments.len(),
                0 <= i <= n,
                segs.len() == i,
                forall|j: int| 0 <= j < i ==> segs@[j] == self.segments@[j],
        decreases n - i,
        {
            segs.push(self.segments[i].clone());
            i = i + 1;
        }
        proof {
            assert(segs.deep_view() =~~= self.segments.deep_view());
        }
        FsPath { segments: segs }
    }
}

} // verus!
