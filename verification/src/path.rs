//! File-system paths as byte strings, compared by their components.
use vstd::prelude::*;
use vstd::utf8::{decode_utf8, encode_utf8, valid_utf8};

verus! {

/// The byte that separates the components of a path.
pub const SEPARATOR: u8 = 0x2f;

/// The byte `.`.
pub const DOT: u8 = 0x2e;

/// A file-system path: its bytes as the system spells it.
///
/// Two paths are equal when their components are, so `a//b`, `a/./b` and `a/b/`
/// are all the same path.
#[derive(Debug)]
pub struct FsPath {
    pub bytes: Vec<u8>,
}

impl View for FsPath {
    type V = Seq<u8>;

    open spec fn view(&self) -> Seq<u8> {
        self.bytes@
    }
}

/// What a path names: whether it starts at the root, and its components.
///
/// Repeated and trailing separators leave no component, nor does `.` except at
/// the start of a relative path. `..` is a component like any other.
#[verifier::ext_equal]
pub struct PathKey {
    pub absolute: bool,
    pub parts: Seq<Seq<u8>>,
}

/// Where the last stretch without separators in the first `n` bytes starts.
pub open spec fn segment_start(p: Seq<u8>, n: int) -> int
    decreases n,
{
    if n <= 0 {
        0
    } else if p[n - 1] == SEPARATOR {
        n
    } else {
        segment_start(p, n - 1)
    }
}

/// The length of the first `n` bytes without the separators and `.` components
/// at their end that name nothing. A leading separator and a leading `.` stay.
pub open spec fn trimmed_len(p: Seq<u8>, n: int) -> int
    decreases n,
    via trimmed_len_decreases
{
    if n <= 0 {
        0
    } else if p[n - 1] == SEPARATOR {
        if n == 1 {
            1
        } else {
            trimmed_len(p, n - 1)
        }
    } else {
        let s = segment_start(p, n);
        if s > 0 && n - s == 1 && p[s] == DOT {
            trimmed_len(p, s)
        } else {
            n
        }
    }
}

#[via_fn]
proof fn trimmed_len_decreases(p: Seq<u8>, n: int) {
    lemma_segment_start(p, n);
}

/// The last segment lies within the first `n` bytes and holds no separator.
pub proof fn lemma_segment_start(p: Seq<u8>, n: int)
    ensures
        n >= 0 ==> 0 <= segment_start(p, n) <= n,
        n > 0 && p[n - 1] != SEPARATOR ==> segment_start(p, n) < n,
        segment_start(p, n) > 0 ==> p[segment_start(p, n) - 1] == SEPARATOR,
        forall|i: int| segment_start(p, n) <= i < n ==> p[i] != SEPARATOR,
    decreases n,
{
    if n > 0 && p[n - 1] != SEPARATOR {
        lemma_segment_start(p, n - 1);
    }
}

/// Whether the first `m` bytes, which end in no surplus, end in a component:
/// they are neither empty nor the root alone.
pub open spec fn ends_in_part(p: Seq<u8>, m: int) -> bool {
    m > 0 && !(m == 1 && p[0] == SEPARATOR)
}

pub proof fn lemma_trimmed_len(p: Seq<u8>, n: int)
    ensures
        n >= 0 ==> 0 <= trimmed_len(p, n) <= n,
        n > 0 ==> trimmed_len(p, n) > 0,
        ends_in_part(p, trimmed_len(p, n)) ==> p[trimmed_len(p, n) - 1] != SEPARATOR,
        trimmed_len(p, trimmed_len(p, n)) == trimmed_len(p, n),
    decreases n,
{
    if n > 0 {
        lemma_segment_start(p, n);
        if p[n - 1] == SEPARATOR {
            if n > 1 {
                lemma_trimmed_len(p, n - 1);
            }
        } else {
            let s = segment_start(p, n);
            if s > 0 && n - s == 1 && p[s] == DOT {
                lemma_trimmed_len(p, s);
            }
        }
    }
}

/// The components that the first `n` bytes name.
pub open spec fn parts(p: Seq<u8>, n: int) -> Seq<Seq<u8>>
    decreases n,
    via parts_decreases
{
    let m = trimmed_len(p, n);
    if !ends_in_part(p, m) {
        Seq::empty()
    } else {
        let s = segment_start(p, m);
        parts(p, s).push(p.subrange(s, m))
    }
}

#[via_fn]
proof fn parts_decreases(p: Seq<u8>, n: int) {
    lemma_trimmed_len(p, n);
    lemma_segment_start(p, trimmed_len(p, n));
    if n < 0 {
        assert(trimmed_len(p, n) == 0);
    }
}

/// Whether a path starts at the root.
pub open spec fn is_absolute(p: Seq<u8>) -> bool {
    p.len() > 0 && p[0] == SEPARATOR
}

/// What the path `p` names.
pub open spec fn path_key(p: Seq<u8>) -> PathKey {
    PathKey { absolute: is_absolute(p), parts: parts(p, p.len() as int) }
}

/// The path without its last component, or `None` for a path without one.
pub open spec fn parent_path(p: Seq<u8>) -> Option<Seq<u8>> {
    let m = trimmed_len(p, p.len() as int);
    if ends_in_part(p, m) {
        Some(p.take(trimmed_len(p, segment_start(p, m))))
    } else {
        None
    }
}

/// The path `rest` seen from `base`: `rest` itself when it is absolute,
/// otherwise `base`, a separator where one is due, and `rest`.
pub open spec fn joined(base: Seq<u8>, rest: Seq<u8>) -> Seq<u8> {
    if is_absolute(rest) {
        rest
    } else if base.len() == 0 || base.last() == SEPARATOR {
        base + rest
    } else {
        base.push(SEPARATOR) + rest
    }
}

/// The last component, where it is a name rather than `.` or `..`.
pub open spec fn file_name_of(p: Seq<u8>) -> Option<Seq<u8>> {
    let names = path_key(p).parts;
    if names.len() == 0 || names.last() == seq![DOT] || names.last() == seq![DOT, DOT] {
        None
    } else {
        Some(names.last())
    }
}

/// What the first `n` bytes name depends on those bytes alone.
pub proof fn lemma_parts_prefix(p: Seq<u8>, q: Seq<u8>, n: int)
    requires
        0 <= n <= p.len(),
        n <= q.len(),
        forall|i: int| 0 <= i < n ==> p[i] == q[i],
    ensures
        segment_start(p, n) == segment_start(q, n),
        trimmed_len(p, n) == trimmed_len(q, n),
        parts(p, n) == parts(q, n),
    decreases n,
{
    lemma_segment_start(p, n);
    lemma_trimmed_len(p, n);
    if n > 0 {
        lemma_parts_prefix(p, q, n - 1);
        let s = segment_start(p, n);
        if s < n {
            lemma_parts_prefix(p, q, s);
        }
        let m = trimmed_len(p, n);
        assert(trimmed_len(q, n) == m);
        if ends_in_part(p, m) {
            lemma_segment_start(p, m);
            if m < n {
                lemma_parts_prefix(p, q, m);
            }
            let t = segment_start(p, m);
            lemma_parts_prefix(p, q, t);
            assert(p.subrange(t, m) == q.subrange(t, m));
        }
    }
}

/// Dropping what names nothing from the end leaves the components as they are.
pub proof fn lemma_parts_trimmed(p: Seq<u8>, n: int)
    ensures
        parts(p, trimmed_len(p, n)) == parts(p, n),
{
    lemma_trimmed_len(p, n);
}

/// A path has a parent exactly when it has a component, and the parent names
/// the same place without the last component.
pub proof fn lemma_parent_key(p: Seq<u8>)
    ensures
        parent_path(p) is None <==> path_key(p).parts.len() == 0,
        parent_path(p) matches Some(q) ==> path_key(q) == (PathKey {
            absolute: path_key(p).absolute,
            parts: path_key(p).parts.drop_last(),
        }),
{
    let n = p.len() as int;
    let m = trimmed_len(p, n);
    lemma_trimmed_len(p, n);
    if ends_in_part(p, m) {
        lemma_segment_start(p, m);
        let s = segment_start(p, m);
        lemma_trimmed_len(p, s);
        let k = trimmed_len(p, s);
        let q = p.take(k);
        lemma_parts_prefix(p, q, k);
        lemma_parts_trimmed(p, s);
        assert(path_key(p).parts.drop_last() == parts(p, s));
        if p[0] == SEPARATOR {
            assert(s > 0);
        }
    }
}

/// Whether `name` can name an entry of a directory: a component by itself.
pub open spec fn is_entry_name(name: Seq<u8>) -> bool {
    &&& name.len() > 0
    &&& !name.contains(SEPARATOR)
    &&& name != seq![DOT]
}

/// Joining the name of an entry onto a directory adds one component to it.
pub proof fn lemma_joined_entry(base: Seq<u8>, name: Seq<u8>)
    requires
        is_entry_name(name),
    ensures
        path_key(joined(base, name)) == (PathKey {
            absolute: path_key(base).absolute,
            parts: path_key(base).parts.push(name),
        }),
{
    assert(!is_absolute(name)) by {
        if is_absolute(name) {
            assert(name.contains(name[0]));
        }
    }
    let p = joined(base, name);
    let n = p.len() as int;
    let s = n - name.len();
    assert(p.subrange(s, n) == name);
    assert forall|i: int| s <= i < n implies p[i] != SEPARATOR by {
        assert(name.contains(name[i - s]));
    }
    lemma_segment_start(p, n);
    if s > 0 {
        assert(p[s - 1] == SEPARATOR);
    }
    assert(segment_start(p, n) == s);
    if name.len() == 1 {
        assert(name =~= seq![name[0]]);
    }
    assert(trimmed_len(p, n) == n);
    let b = base.len() as int;
    lemma_parts_prefix(p, base, b);
    if s == b + 1 {
        assert(p[b] == SEPARATOR);
        assert(trimmed_len(p, s) == trimmed_len(p, b));
        assert(parts(p, s) == parts(p, b));
    }
    assert(parts(p, s) == path_key(base).parts);
    assert(path_key(p).parts == parts(p, s).push(name));
}

fn segment_start_of(p: &Vec<u8>, n: usize) -> (s: usize)
    requires
        n <= p@.len(),
    ensures
        s == segment_start(p@, n as int),
        s <= n,
{
    let mut s: usize = n;
    while s > 0 && p[s - 1] != SEPARATOR
        invariant
            s <= n <= p@.len(),
            segment_start(p@, n as int) == segment_start(p@, s as int),
        decreases s,
    {
        s -= 1;
    }
    s
}

fn trimmed_len_of(p: &Vec<u8>, n: usize) -> (m: usize)
    requires
        n <= p@.len(),
    ensures
        m == trimmed_len(p@, n as int),
        m <= n,
{
    let mut m: usize = n;
    while m > 0
        invariant
            m <= n <= p@.len(),
            trimmed_len(p@, n as int) == trimmed_len(p@, m as int),
        decreases m,
    {
        if p[m - 1] == SEPARATOR {
            if m == 1 {
                return 1;
            }
            m -= 1;
        } else {
            let s: usize = segment_start_of(p, m);
            if s > 0 && m - s == 1 && p[s] == DOT {
                m = s;
            } else {
                return m;
            }
        }
    }
    0
}

/// The components that the first `n` bytes name.
fn parts_of(p: &Vec<u8>, n: usize) -> (out: Vec<Vec<u8>>)
    requires
        n <= p@.len(),
    ensures
        part_views(out@) == parts(p@, n as int),
    decreases n,
{
    let m: usize = trimmed_len_of(p, n);
    proof {
        lemma_trimmed_len(p@, n as int);
        lemma_segment_start(p@, m as int);
    }
    if m == 0 || (m == 1 && p[0] == SEPARATOR) {
        let out: Vec<Vec<u8>> = Vec::new();
        assert(part_views(out@) == parts(p@, n as int));
        out
    } else {
        let s: usize = segment_start_of(p, m);
        let mut out = parts_of(p, s);
        let ghost before = out@;
        let part = bytes_between(p, s, m);
        out.push(part);
        assert(part_views(out@) == part_views(before).push(part@));
        out
    }
}

/// The views of a list of components.
pub open spec fn part_views(list: Seq<Vec<u8>>) -> Seq<Seq<u8>> {
    list.map_values(|part: Vec<u8>| part@)
}

fn bytes_between(p: &Vec<u8>, from: usize, to: usize) -> (out: Vec<u8>)
    requires
        from <= to <= p@.len(),
    ensures
        out@ == p@.subrange(from as int, to as int),
{
    let mut out: Vec<u8> = Vec::new();
    for i in from..to
        invariant
            from <= to <= p@.len(),
            out@ == p@.subrange(from as int, i as int),
    {
        out.push(p[i]);
        assert(p@.subrange(from as int, i + 1) == p@.subrange(from as int, i as int).push(
            p@[i as int],
        ));
    }
    out
}

/// Whether two paths name the same place.
pub fn same_path(a: &FsPath, b: &FsPath) -> (r: bool)
    ensures
        r == (path_key(a@) == path_key(b@)),
{
    let absolute_a = a.bytes.len() > 0 && a.bytes[0] == SEPARATOR;
    let absolute_b = b.bytes.len() > 0 && b.bytes[0] == SEPARATOR;
    if absolute_a != absolute_b {
        return false;
    }
    let mut i: usize = a.bytes.len();
    let mut j: usize = b.bytes.len();
    loop
        invariant
            i <= a@.len(),
            j <= b@.len(),
            is_absolute(a@) == is_absolute(b@),
            (path_key(a@) == path_key(b@)) == (parts(a@, i as int) == parts(b@, j as int)),
        decreases i,
    {
        let m: usize = trimmed_len_of(&a.bytes, i);
        let n: usize = trimmed_len_of(&b.bytes, j);
        proof {
            lemma_trimmed_len(a@, i as int);
            lemma_trimmed_len(b@, j as int);
            lemma_segment_start(a@, m as int);
            lemma_segment_start(b@, n as int);
        }
        let more_a = m > 0 && !(m == 1 && a.bytes[0] == SEPARATOR);
        let more_b = n > 0 && !(n == 1 && b.bytes[0] == SEPARATOR);
        if !more_a || !more_b {
            return more_a == more_b;
        }
        let s: usize = segment_start_of(&a.bytes, m);
        let t: usize = segment_start_of(&b.bytes, n);
        let ghost rest_a = parts(a@, s as int);
        let ghost rest_b = parts(b@, t as int);
        let ghost last_a = a@.subrange(s as int, m as int);
        let ghost last_b = b@.subrange(t as int, n as int);
        assert(rest_a.push(last_a).drop_last() == rest_a);
        assert(rest_b.push(last_b).drop_last() == rest_b);
        assert(rest_a.push(last_a).last() == last_a);
        assert(rest_b.push(last_b).last() == last_b);
        if m - s != n - t {
            assert(last_a.len() != last_b.len());
            return false;
        }
        let mut k: usize = 0;
        while k < m - s
            invariant
                k <= m - s,
                m - s == n - t,
                s <= m <= a@.len(),
                t <= n <= b@.len(),
                last_a == a@.subrange(s as int, m as int),
                last_b == b@.subrange(t as int, n as int),
                forall|x: int| 0 <= x < k ==> last_a[x] == last_b[x],
                parts(a@, i as int) == rest_a.push(last_a),
                parts(b@, j as int) == rest_b.push(last_b),
                rest_a.push(last_a).last() == last_a,
                rest_b.push(last_b).last() == last_b,
                (path_key(a@) == path_key(b@)) == (parts(a@, i as int) == parts(b@, j as int)),
            decreases m - s - k,
        {
            if a.bytes[s + k] != b.bytes[t + k] {
                assert(last_a[k as int] != last_b[k as int]);
                return false;
            }
            k += 1;
        }
        assert(last_a == last_b);
        i = s;
        j = t;
    }
}

impl PartialEq for FsPath {
    fn eq(&self, other: &Self) -> (r: bool) {
        same_path(self, other)
    }
}

impl vstd::std_specs::cmp::PartialEqSpecImpl for FsPath {
    open spec fn obeys_eq_spec() -> bool {
        true
    }

    open spec fn eq_spec(&self, other: &Self) -> bool {
        path_key(self@) == path_key(other@)
    }
}

impl Eq for FsPath {

}

impl Clone for FsPath {
    fn clone(&self) -> (r: Self)
        ensures
            r@ == self@,
    {
        FsPath { bytes: bytes_between(&self.bytes, 0, self.bytes.len()) }
    }
}

/// The text that `String::from_utf8_lossy` gives for `bytes`.
pub uninterp spec fn lossy_text(bytes: Seq<u8>) -> Seq<char>;

/// `String::from_utf8_lossy` reads bytes as UTF-8. Valid UTF-8 comes out as the
/// text it encodes; in other bytes each invalid stretch is replaced, and what
/// exactly stands in its place is left to the name.
#[verifier::external_body]
pub(crate) fn to_text_lossy(bytes: &Vec<u8>) -> (s: String)
    ensures
        s@ == lossy_text(bytes@),
        valid_utf8(bytes@) ==> s@ == decode_utf8(bytes@),
{
    String::from_utf8_lossy(bytes).into_owned()
}

impl FsPath {
    /// The path that `text` spells.
    pub fn from_text(text: &str) -> (path: FsPath)
        ensures
            path@ == encode_utf8(text@),
    {
        let bytes = text.as_bytes();
        let mut out: Vec<u8> = Vec::new();
        for i in 0..bytes.len()
            invariant
                out@ == bytes@.take(i as int),
        {
            out.push(bytes[i]);
        }
        FsPath { bytes: out }
    }

    /// The path as text. A path that is not valid UTF-8 shows replacement
    /// characters where it cannot be read.
    pub fn to_text(&self) -> (text: String)
        ensures
            text@ == lossy_text(self@),
            valid_utf8(self@) ==> text@ == decode_utf8(self@),
    {
        to_text_lossy(&self.bytes)
    }

    /// The path as text, if it is valid UTF-8.
    pub fn to_str(&self) -> (text: Option<String>)
        ensures
            text is Some <==> valid_utf8(self@),
            text matches Some(t) ==> t@ == decode_utf8(self@),
    {
        // Only valid UTF-8 comes back from the text that it was read as.
        let text = to_text_lossy(&self.bytes);
        let bytes = text.as_str().as_bytes();
        proof {
            vstd::utf8::encode_utf8_valid_utf8(text@);
            if valid_utf8(self@) {
                vstd::utf8::decode_utf8_encode_utf8(self@);
            }
        }
        if bytes.len() != self.bytes.len() {
            return None;
        }
        let mut i: usize = 0;
        while i < bytes.len()
            invariant
                i <= bytes@.len(),
                bytes@.len() == self@.len(),
                forall|j: int| 0 <= j < i ==> bytes@[j] == self@[j],
                valid_utf8(self@) ==> bytes@ == self@,
            decreases bytes@.len() - i,
        {
            if bytes[i] != self.bytes[i] {
                return None;
            }
            i += 1;
        }
        assert(bytes@ == self@);
        Some(text)
    }

    /// The path `rest` seen from this one. An absolute `rest` stands for itself.
    pub fn join(&self, rest: &FsPath) -> (path: FsPath)
        ensures
            path@ == joined(self@, rest@),
    {
        if rest.bytes.len() > 0 && rest.bytes[0] == SEPARATOR {
            return rest.clone();
        }
        let mut out = bytes_between(&self.bytes, 0, self.bytes.len());
        if out.len() > 0 && out[out.len() - 1] != SEPARATOR {
            out.push(SEPARATOR);
        }
        let ghost base = out@;
        for i in 0..rest.bytes.len()
            invariant
                out@ == base + rest@.take(i as int),
        {
            out.push(rest.bytes[i]);
        }
        assert(rest@.take(rest@.len() as int) == rest@);
        FsPath { bytes: out }
    }

    /// The path without its last component, or `None` for the root and for the
    /// empty path.
    pub fn parent(&self) -> (path: Option<FsPath>)
        ensures
            path is Some <==> parent_path(self@) is Some,
            path matches Some(q) ==> parent_path(self@) == Some(q@),
    {
        let m: usize = trimmed_len_of(&self.bytes, self.bytes.len());
        if m == 0 || (m == 1 && self.bytes[0] == SEPARATOR) {
            return None;
        }
        let s: usize = segment_start_of(&self.bytes, m);
        let k: usize = trimmed_len_of(&self.bytes, s);
        let bytes = bytes_between(&self.bytes, 0, k);
        assert(bytes@ == self@.take(k as int));
        Some(FsPath { bytes })
    }

    /// The last component, unless it is `.` or `..` or missing.
    pub fn file_name(&self) -> (name: Option<FsPath>)
        ensures
            name is Some <==> file_name_of(self@) is Some,
            name matches Some(n) ==> file_name_of(self@) == Some(n@),
    {
        let m: usize = trimmed_len_of(&self.bytes, self.bytes.len());
        proof {
            lemma_trimmed_len(self@, self@.len() as int);
            lemma_segment_start(self@, m as int);
        }
        if m == 0 || (m == 1 && self.bytes[0] == SEPARATOR) {
            return None;
        }
        let s: usize = segment_start_of(&self.bytes, m);
        let name = bytes_between(&self.bytes, s, m);
        assert(path_key(self@).parts.last() == name@);
        if name.len() == 1 && name[0] == DOT {
            assert(name@ == seq![DOT]);
            return None;
        }
        if name.len() == 2 && name[0] == DOT && name[1] == DOT {
            assert(name@ == seq![DOT, DOT]);
            return None;
        }
        Some(FsPath { bytes: name })
    }
}

/// How a component counts in the order of paths: `.` before `..` before names,
/// and names by their bytes.
pub open spec fn part_row(part: Seq<u8>) -> Seq<u32> {
    if part == seq![DOT] {
        seq![1u32]
    } else if part == seq![DOT, DOT] {
        seq![2u32]
    } else {
        seq![3u32] + part.map_values(|b: u8| b as u32)
    }
}

/// The key that orders paths component by component, the root before all else.
pub open spec fn path_rows(key: PathKey) -> Seq<Seq<u32>> {
    (if key.absolute {
        seq![seq![0u32]]
    } else {
        seq![]
    }) + key.parts.map_values(|part: Seq<u8>| part_row(part))
}

fn part_row_of(part: &Vec<u8>) -> (row: Vec<u32>)
    ensures
        row@ == part_row(part@),
{
    let mut row: Vec<u32> = Vec::new();
    if part.len() == 1 && part[0] == DOT {
        assert(part@ == seq![DOT]);
        row.push(1);
        assert(row@ == seq![1u32]);
        return row;
    }
    if part.len() == 2 && part[0] == DOT && part[1] == DOT {
        assert(part@ == seq![DOT, DOT]);
        row.push(2);
        assert(row@ == seq![2u32]);
        return row;
    }
    row.push(3);
    for i in 0..part.len()
        invariant
            row@ == seq![3u32] + part@.take(i as int).map_values(|b: u8| b as u32),
    {
        row.push(part[i] as u32);
        assert(part@.take(i + 1).map_values(|b: u8| b as u32) == part@.take(i as int).map_values(
            |b: u8| b as u32,
        ).push(part@[i as int] as u32));
    }
    assert(part@.take(part@.len() as int) == part@);
    row
}

/// The key that orders the path among others.
pub fn path_rows_of(path: &FsPath) -> (out: Vec<Vec<u32>>)
    ensures
        crate::order::rows(out@) == path_rows(path_key(path@)),
{
    let names = parts_of(&path.bytes, path.bytes.len());
    let mut out: Vec<Vec<u32>> = Vec::new();
    if path.bytes.len() > 0 && path.bytes[0] == SEPARATOR {
        let mut root: Vec<u32> = Vec::new();
        root.push(0);
        assert(root@ == seq![0u32]);
        out.push(root);
    }
    let ghost head = crate::order::rows(out@);
    let ghost key = path_key(path@);
    assert(head == if key.absolute {
        seq![seq![0u32]]
    } else {
        seq![]
    });
    for i in 0..names.len()
        invariant
            part_views(names@) == key.parts,
            crate::order::rows(out@) == head + key.parts.take(i as int).map_values(
                |part: Seq<u8>| part_row(part),
            ),
    {
        let ghost before = out@;
        let row = part_row_of(&names[i]);
        out.push(row);
        assert(names@[i as int]@ == part_views(names@)[i as int]);
        assert(crate::order::rows(out@) == crate::order::rows(before).push(row@));
        assert(key.parts.take(i + 1).map_values(|part: Seq<u8>| part_row(part)) == key.parts.take(
            i as int,
        ).map_values(|part: Seq<u8>| part_row(part)).push(part_row(key.parts[i as int])));
    }
    assert(key.parts.take(key.parts.len() as int) == key.parts);
    out
}

/// Different components count differently in the order.
proof fn lemma_part_row_injective(a: Seq<u8>, b: Seq<u8>)
    requires
        part_row(a) == part_row(b),
    ensures
        a == b,
{
    let row_a = part_row(a);
    let row_b = part_row(b);
    assert(row_a[0] == row_b[0]);
    if row_a[0] == 3u32 {
        let bytes_a = a.map_values(|x: u8| x as u32);
        let bytes_b = b.map_values(|x: u8| x as u32);
        assert(row_a.skip(1) == bytes_a);
        assert(row_b.skip(1) == bytes_b);
        assert forall|i: int| 0 <= i < a.len() implies a[i] == b[i] by {
            assert(bytes_a[i] == bytes_b[i]);
        }
        assert(a == b);
    }
}

/// Paths that name different places count differently in the order.
pub proof fn lemma_path_rows_injective(a: PathKey, b: PathKey)
    requires
        path_rows(a) == path_rows(b),
    ensures
        a == b,
{
    let rows_a = path_rows(a);
    let rows_b = path_rows(b);
    let parts_a = a.parts.map_values(|part: Seq<u8>| part_row(part));
    let parts_b = b.parts.map_values(|part: Seq<u8>| part_row(part));
    if a.absolute {
        assert(rows_a[0] == seq![0u32]);
        assert(rows_a[0][0] == 0);
        assert(rows_a.skip(1) == parts_a);
    } else {
        assert(rows_a == parts_a);
    }
    if b.absolute {
        assert(rows_b[0] == seq![0u32]);
        assert(rows_b[0][0] == 0);
        assert(rows_b.skip(1) == parts_b);
    } else {
        assert(rows_b == parts_b);
    }
    if a.absolute != b.absolute {
        if a.absolute {
            assert(part_row(b.parts[0])[0] != 0);
        } else {
            assert(part_row(a.parts[0])[0] != 0);
        }
    }
    assert forall|i: int| 0 <= i < a.parts.len() implies a.parts[i] == b.parts[i] by {
        assert(parts_a[i] == parts_b[i]);
        lemma_part_row_injective(a.parts[i], b.parts[i]);
    }
    assert(a.parts == b.parts);
}

/// The empty path names nothing, and a separator alone the root.
pub proof fn law_shortest_paths()
    ensures
        path_key(seq![]) == (PathKey { absolute: false, parts: seq![] }),
        path_key(seq![SEPARATOR]) == (PathKey { absolute: true, parts: seq![] }),
        SEPARATOR == '/' as u8 && DOT == '.' as u8,
{
    assert(path_key(seq![]).parts =~= Seq::<Seq<u8>>::empty());
    assert(path_key(seq![SEPARATOR]).parts =~= Seq::<Seq<u8>>::empty());
}

/// Separators and lone dots behind a path change nothing about what it names.
pub proof fn law_trailing_surplus(p: Seq<u8>)
    requires
        p.len() > 0,
    ensures
        path_key(p.push(SEPARATOR)) == path_key(p),
        path_key(p.push(SEPARATOR).push(DOT)) == path_key(p),
{
    let n = p.len() as int;
    let q = p.push(SEPARATOR);
    let r = q.push(DOT);
    lemma_parts_prefix(p, q, n);
    lemma_parts_prefix(q, r, n + 1);
    lemma_trimmed_len(q, n + 1);
    lemma_trimmed_len(p, n);
    assert(q[n] == SEPARATOR);
    assert(trimmed_len(q, n + 1) == trimmed_len(q, n));
    lemma_parts_trimmed(q, n + 1);
    lemma_parts_trimmed(q, n);
    assert(parts(q, n + 1) == parts(q, n));
    assert(r[n] == SEPARATOR && r[n + 1] == DOT);
    assert(segment_start(r, n + 1) == n + 1);
    assert(segment_start(r, n + 2) == segment_start(r, n + 1));
    assert(trimmed_len(r, n + 2) == trimmed_len(r, n + 1));
    lemma_parts_trimmed(r, n + 2);
    lemma_parts_trimmed(r, n + 1);
    assert(r[0] == p[0] && q[0] == p[0]);
    assert(path_key(q) =~= path_key(p));
    assert(path_key(r) =~= path_key(p));
}

/// A name that is joined to a path is the last component of what the whole names; the
/// components before it are those of the path. Its parent is the path, and its name the
/// name, unless that leads upwards.
pub proof fn law_joined_name(base: Seq<u8>, name: Seq<u8>)
    requires
        is_entry_name(name),
    ensures
        path_key(joined(base, name)).parts == path_key(base).parts.push(name),
        path_key(joined(base, name)).absolute == path_key(base).absolute,
        parent_path(joined(base, name)) matches Some(parent) && path_key(parent) == path_key(base),
        name != seq![DOT, DOT] ==> file_name_of(joined(base, name)) == Some(name),
        name == seq![DOT, DOT] ==> file_name_of(joined(base, name)) is None,
{
    lemma_joined_entry(base, name);
    lemma_parent_key(joined(base, name));
    assert(path_key(base).parts.push(name).drop_last() =~= path_key(base).parts);
}

/// An absolute path stands for itself wherever it is seen from; another one follows the
/// path that it is seen from, with one separator between them where none is there.
pub proof fn law_joined_paths(base: Seq<u8>, rest: Seq<u8>)
    ensures
        rest.len() > 0 && rest[0] == SEPARATOR ==> joined(base, rest) == rest,
        rest.len() == 0 || rest[0] != SEPARATOR ==> {
            let both = joined(base, rest);
            &&& base.is_prefix_of(both)
            &&& both.skip(both.len() - rest.len()) == rest
            &&& both.len() == base.len() + rest.len() + if base.len() == 0 || base.last()
                == SEPARATOR {
                0int
            } else {
                1
            }
            &&& both.len() == base.len() + rest.len() + 1 ==> both[base.len() as int] == SEPARATOR
        },
{
    if !is_absolute(rest) {
        let both = joined(base, rest);
        assert(both.skip(both.len() - rest.len()) =~= rest);
    }
}

/// Only a path without components is without a parent or a name.
pub proof fn law_parentless_paths(p: Seq<u8>)
    ensures
        parent_path(p) is None <==> path_key(p).parts.len() == 0,
        path_key(p).parts.len() == 0 ==> file_name_of(p) is None,
        parent_path(p) matches Some(parent) ==> path_key(parent).parts.len() + 1 == path_key(
            p,
        ).parts.len() && path_key(parent).parts.is_prefix_of(path_key(p).parts),
        parent_path(p) matches Some(parent) ==> parent.is_prefix_of(p),
{
    lemma_parent_key(p);
    lemma_trimmed_len(p, p.len() as int);
    let m = trimmed_len(p, p.len() as int);
    lemma_segment_start(p, m);
    lemma_trimmed_len(p, segment_start(p, m));
}

/// Where two paths part, the one comes first whose name there has the smaller byte where
/// the names differ first, or whose name the other one continues. A directory comes ahead of
/// what is in it.
pub proof fn law_path_order(a: PathKey, b: PathKey, k: int, j: int)
    requires
        a.absolute == b.absolute,
        0 <= k <= a.parts.len(),
        k <= b.parts.len(),
        forall|i: int| 0 <= i < k ==> a.parts[i] == b.parts[i],
        k < a.parts.len() && k < b.parts.len() ==> {
            let x = a.parts[k];
            let y = b.parts[k];
            &&& x != y
            &&& x != seq![DOT] && x != seq![DOT, DOT] && y != seq![DOT] && y != seq![DOT, DOT]
            &&& 0 <= j <= x.len() && j <= y.len()
            &&& forall|i: int| 0 <= i < j ==> x[i] == y[i]
            &&& j < x.len() && j < y.len() ==> x[j] != y[j]
        },
    ensures
        crate::order::key_before(path_rows(a), path_rows(b)) <==> k < b.parts.len() && (k
            == a.parts.len() || (j < b.parts[k].len() && (j == a.parts[k].len() || a.parts[k][j]
            < b.parts[k][j]))),
{
    let rows_a = path_rows(a);
    let rows_b = path_rows(b);
    let lead = if a.absolute {
        1int
    } else {
        0
    };
    assert forall|i: int| 0 <= i < lead + k implies rows_a[i] == rows_b[i] by {
        if i >= lead {
            assert(a.parts[i - lead] == b.parts[i - lead]);
        }
    }
    if k < a.parts.len() && k < b.parts.len() {
        let x = a.parts[k];
        let y = b.parts[k];
        let row_x = part_row(x);
        let row_y = part_row(y);
        assert(rows_a[lead + k] == row_x && rows_b[lead + k] == row_y);
        assert forall|i: int| 0 <= i < j + 1 implies row_x[i] == row_y[i] by {
            if i > 0 {
                assert(x[i - 1] == y[i - 1]);
            }
        }
        crate::order::law_row_order(row_x, row_y, j + 1);
        if row_x == row_y {
            lemma_part_row_injective(x, y);
        }
    }
    crate::order::law_key_order(rows_a, rows_b, lead + k);
}

} // verus!
