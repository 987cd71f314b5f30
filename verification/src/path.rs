//! Unix file-system paths as plain bytes.
//!
//! A path need not be valid text. Its components are the names between the
//! separators; repeated separators, a trailing separator and `.` inside a path
//! carry no meaning.
use vstd::prelude::*;
use vstd::string::*;
use vstd::utf8::*;

verus! {

/// The separator byte.
pub const SLASH: u8 = 47;

/// The byte of `.`.
pub const DOT: u8 = 46;

/// The byte of `~`.
pub const TILDE: u8 = 126;

/// A file-system path.
#[derive(Debug, PartialEq, Eq, Hash)]
pub struct FsPath {
    bytes: Vec<u8>,
}

impl View for FsPath {
    type V = Seq<u8>;

    closed spec fn view(&self) -> Seq<u8> {
        self.bytes@
    }
}

/// The bytes of a list of paths.
pub open spec fn paths_view(v: Seq<FsPath>) -> Seq<Seq<u8>> {
    v.map_values(|p: FsPath| p@)
}

/// The bytes of an optional path.
pub open spec fn opt_path(o: Option<FsPath>) -> Option<Seq<u8>> {
    match o {
        Some(p) => Some(p@),
        None => None,
    }
}

/// Whether a path starts at the root.
pub open spec fn rooted(p: Seq<u8>) -> bool {
    p.len() > 0 && p[0] == SLASH
}

/// Whether a path ends in a separator followed by a lone dot.
pub open spec fn ends_in_dot(p: Seq<u8>) -> bool {
    p.len() > 1 && p.last() == DOT && p[p.len() - 2] == SLASH
}

/// A path without the trailing separators and dots that carry no meaning.
pub open spec fn trimmed_path(p: Seq<u8>) -> Seq<u8>
    decreases p.len(),
{
    if p.len() > 1 && (p.last() == SLASH || ends_in_dot(p)) {
        trimmed_path(p.drop_last())
    } else {
        p
    }
}

/// Where the last component of a trimmed path starts: after its last
/// separator.
pub open spec fn name_start(p: Seq<u8>) -> int
    decreases p.len(),
{
    if p.len() == 0 || p.last() == SLASH {
        p.len() as int
    } else {
        name_start(p.drop_last())
    }
}

/// Whether a path has no component besides the root.
pub open spec fn bare(p: Seq<u8>) -> bool {
    trimmed_path(p).len() == 0 || trimmed_path(p) == seq![SLASH]
}

/// The last component.
pub open spec fn last_name(p: Seq<u8>) -> Seq<u8> {
    trimmed_path(p).skip(name_start(trimmed_path(p)))
}

/// The path up to its last component.
pub open spec fn stem_path(p: Seq<u8>) -> Seq<u8> {
    trimmed_path(trimmed_path(p).take(name_start(trimmed_path(p))))
}

/// The parent directory: none for the root and for the empty path.
pub open spec fn parent_path(p: Seq<u8>) -> Option<Seq<u8>> {
    if bare(p) {
        None
    } else {
        Some(stem_path(p))
    }
}

/// The final name: none for the root, the empty path, and a path that ends in
/// `.` or `..`.
pub open spec fn file_name_bytes(p: Seq<u8>) -> Option<Seq<u8>> {
    if bare(p) || last_name(p) == seq![DOT] || last_name(p) == seq![DOT, DOT] {
        None
    } else {
        Some(last_name(p))
    }
}

proof fn lemma_trimmed_path(p: Seq<u8>)
    ensures
        trimmed_path(p).len() <= p.len(),
        trimmed_path(p) == p.take(trimmed_path(p).len() as int),
        p.len() > 0 ==> trimmed_path(p).len() > 0,
        trimmed_path(p).len() > 1 ==> trimmed_path(p).last() != SLASH,
        trimmed_path(trimmed_path(p)) == trimmed_path(p),
    decreases p.len(),
{
    if p.len() > 1 && (p.last() == SLASH || ends_in_dot(p)) {
        lemma_trimmed_path(p.drop_last());
        let n = trimmed_path(p).len() as int;
        assert(p.drop_last().take(n) =~= p.take(n));
    } else {
        assert(p.take(p.len() as int) =~= p);
    }
}

proof fn lemma_name_start(p: Seq<u8>)
    ensures
        0 <= name_start(p) <= p.len(),
        p.len() > 0 && p.last() != SLASH ==> name_start(p) < p.len(),
        name_start(p) > 0 ==> p[name_start(p) - 1] == SLASH,
    decreases p.len(),
{
    if p.len() > 0 && p.last() != SLASH {
        lemma_name_start(p.drop_last());
    }
}

/// The path up to the last component is shorter than the path.
pub proof fn lemma_stem_shrinks(p: Seq<u8>)
    ensures
        !bare(p) ==> stem_path(p).len() < p.len(),
{
    if !bare(p) {
        let t = trimmed_path(p);
        lemma_trimmed_path(p);
        lemma_name_start(t);
        if t.len() == 1 && t.last() == SLASH {
            assert(t =~= seq![SLASH]);
        }
        assert(t.last() != SLASH);
        lemma_trimmed_path(t.take(name_start(t)));
    }
}

/// The components of a path; a rooted path starts with the root's own.
pub open spec fn components(p: Seq<u8>) -> Seq<Seq<u8>>
    decreases p.len(),
{
    if bare(p) {
        if rooted(p) {
            seq![seq![SLASH]]
        } else {
            seq![]
        }
    } else {
        proof {
            lemma_stem_shrinks(p);
        }
        components(stem_path(p)).push(last_name(p))
    }
}

/// A path put behind a base: an absolute one replaces the base, any other is
/// appended after a separator.
pub open spec fn joined(base: Seq<u8>, p: Seq<u8>) -> Seq<u8> {
    if rooted(p) {
        p
    } else if base.len() == 0 || base.last() == SLASH {
        base + p
    } else {
        base.push(SLASH) + p
    }
}

/// Whether `inner` lies strictly below `outer`, component by component.
pub open spec fn strictly_within(outer: Seq<u8>, inner: Seq<u8>) -> bool {
    components(inner) != components(outer) && components(outer).is_prefix_of(components(inner))
}

/// A single component that is not the current directory.
pub open spec fn plain_name(n: Seq<u8>) -> bool {
    n.len() > 0 && !n.contains(SLASH) && n != seq![DOT]
}

proof fn lemma_components_of_trimmed(p: Seq<u8>)
    ensures
        components(trimmed_path(p)) == components(p),
{
    lemma_trimmed_path(p);
    if p.len() > 0 {
        assert(trimmed_path(p)[0] == p[0]);
    }
}

proof fn lemma_name_start_of_suffix(p: Seq<u8>, k: int)
    requires
        0 <= k <= p.len(),
        k > 0 ==> p[k - 1] == SLASH,
        forall|i: int| k <= i < p.len() ==> p[i] != SLASH,
    ensures
        name_start(p) == k,
    decreases p.len(),
{
    if p.len() > k {
        assert(p.last() == p[p.len() - 1]);
        lemma_name_start_of_suffix(p.drop_last(), k);
    } else if k > 0 {
        assert(p.last() == p[k - 1]);
    }
}

/// A name put behind a base becomes one more component, and the base is its
/// parent.
pub proof fn law_join_adds_a_component(base: Seq<u8>, name: Seq<u8>)
    requires
        plain_name(name),
    ensures
        components(joined(base, name)) == components(base).push(name),
        parent_path(joined(base, name)) == Some(trimmed_path(base)),
        strictly_within(base, joined(base, name)),
{
    let j = joined(base, name);
    let k = j.len() - name.len();
    assert forall|i: int| k <= i < j.len() implies j[i] != SLASH by {
        assert(j[i] == name[i - k]);
        assert(name.contains(name[i - k]));
    }
    assert(name.contains(name[0]));
    assert(j.last() == name.last());
    assert(name.contains(name.last()));
    if ends_in_dot(j) {
        if name.len() > 1 {
            assert(j[j.len() - 2] == name[name.len() - 2]);
            assert(name.contains(name[name.len() - 2]));
        } else {
            assert(name =~= seq![DOT]);
        }
    }
    assert(trimmed_path(j) == j);
    if k > 0 {
        assert(j[k - 1] == SLASH);
    }
    lemma_name_start_of_suffix(j, k);
    assert(j.skip(k) =~= name);
    let b = j.take(k);
    assert(trimmed_path(b) == trimmed_path(base)) by {
        if base.len() == 0 || base.last() == SLASH {
            assert(b =~= base);
        } else {
            assert(b =~= base.push(SLASH));
            assert(b.drop_last() =~= base);
        }
    }
    assert(j != seq![SLASH]) by {
        if j == seq![SLASH] {
            assert(j.last() == SLASH);
        }
    }
    lemma_components_of_trimmed(base);
    assert(stem_path(j) == trimmed_path(base));
    assert(last_name(j) == name);
    assert(components(j) == components(base).push(name));
    assert(components(base).is_prefix_of(components(j)));
    assert(components(j).len() != components(base).len());
}

/// Nothing lies strictly within itself, nor within what it contains.
pub proof fn law_within_is_strict(a: Seq<u8>, b: Seq<u8>)
    ensures
        !strictly_within(a, a),
        strictly_within(a, b) ==> !strictly_within(b, a),
{
    if strictly_within(a, b) && strictly_within(b, a) {
        assert(components(a) =~= components(b));
    }
}

/// What `String::from_utf8_lossy` shows for some bytes.
pub uninterp spec fn lossy_utf8(bytes: Seq<u8>) -> Seq<char>;

/// `String::from_utf8` succeeds exactly on valid UTF-8, and the text it gives
/// is the one that these bytes encode.
#[verifier::external_body]
fn utf8_text(bytes: &Vec<u8>) -> (res: Option<String>)
    ensures
        res is Some <==> valid_utf8(bytes@),
        res matches Some(s) ==> encode_utf8(s@) == bytes@,
{
    String::from_utf8(bytes.clone()).ok()
}

/// `String::from_utf8_lossy` is a function of the bytes, and shows valid UTF-8
/// as the text it encodes.
#[verifier::external_body]
pub(crate) fn lossy_text(bytes: &Vec<u8>) -> (res: String)
    ensures
        res@ == lossy_utf8(bytes@),
        valid_utf8(bytes@) ==> encode_utf8(res@) == bytes@,
{
    String::from_utf8_lossy(bytes).into_owned()
}

/// Whether two byte strings are equal.
pub fn same_bytes(a: &Vec<u8>, b: &Vec<u8>) -> (res: bool)
    ensures
        res == (a@ == b@),
{
    if a.len() != b.len() {
        return false;
    }
    let mut i: usize = 0;
    while i < a.len()
        invariant
            i <= a.len(),
            a.len() == b.len(),
            forall|k: int| 0 <= k < i ==> a[k] == b[k],
        decreases a.len() - i,
    {
        if a[i] != b[i] {
            assert(a@[i as int] != b@[i as int]);
            return false;
        }
        i += 1;
    }
    assert(a@ =~= b@);
    true
}

/// The bytes `v[from..to]`.
pub fn copy_bytes(v: &Vec<u8>, from: usize, to: usize) -> (res: Vec<u8>)
    requires
        from <= to <= v.len(),
    ensures
        res@ == v@.subrange(from as int, to as int),
{
    let mut out: Vec<u8> = Vec::new();
    let mut i: usize = from;
    while i < to
        invariant
            from <= i <= to <= v.len(),
            out@ == v@.subrange(from as int, i as int),
        decreases to - i,
    {
        out.push(v[i]);
        i += 1;
    }
    out
}

/// Appends `more` to `out`.
pub fn append_bytes(out: &mut Vec<u8>, more: &Vec<u8>)
    ensures
        final(out)@ == old(out)@ + more@,
{
    let ghost before = out@;
    let mut i: usize = 0;
    while i < more.len()
        invariant
            i <= more.len(),
            out@ == before + more@.take(i as int),
        decreases more.len() - i,
    {
        out.push(more[i]);
        i += 1;
        assert(before + more@.take(i as int) =~= (before + more@.take(i - 1)).push(more@[i - 1]));
    }
    assert(more@.take(more@.len() as int) =~= more@);
}

impl Clone for FsPath {
    fn clone(&self) -> (res: FsPath)
        ensures
            res@ == self@,
    {
        let bytes = copy_bytes(&self.bytes, 0, self.bytes.len());
        assert(bytes@ =~= self.bytes@);
        FsPath { bytes }
    }
}

impl FsPath {
    /// The path made of these bytes.
    pub fn from_bytes(bytes: Vec<u8>) -> (res: FsPath)
        ensures
            res@ == bytes@,
    {
        FsPath { bytes }
    }

    /// The path written as this text.
    pub fn new(text: &str) -> (res: FsPath)
        ensures
            res@ == encode_utf8(text@),
    {
        let slice = text.as_bytes();
        let mut bytes: Vec<u8> = Vec::new();
        let mut i: usize = 0;
        while i < slice.len()
            invariant
                i <= slice.len(),
                bytes@ == slice@.take(i as int),
            decreases slice.len() - i,
        {
            bytes.push(slice[i]);
            i += 1;
        }
        assert(slice@.take(slice@.len() as int) =~= slice@);
        FsPath { bytes }
    }

    /// The bytes of the path.
    pub fn as_bytes(&self) -> (res: &Vec<u8>)
        ensures
            res@ == self@,
    {
        &self.bytes
    }

    /// The path as text, where its bytes are valid UTF-8.
    pub fn to_text(&self) -> (res: Option<String>)
        ensures
            res is Some <==> valid_utf8(self@),
            res matches Some(s) ==> encode_utf8(s@) == self@,
    {
        utf8_text(&self.bytes)
    }

    /// The path as shown to a person: bytes that are no text are replaced.
    pub fn display(&self) -> (res: String)
        ensures
            res@ == lossy_utf8(self@),
            valid_utf8(self@) ==> encode_utf8(res@) == self@,
    {
        lossy_text(&self.bytes)
    }

    /// Whether the path starts at the root.
    pub fn is_absolute(&self) -> (res: bool)
        ensures
            res == rooted(self@),
    {
        self.bytes.len() > 0 && self.bytes[0] == SLASH
    }

    /// Whether the path has no bytes.
    pub fn is_empty(&self) -> (res: bool)
        ensures
            res == (self@.len() == 0),
    {
        self.bytes.len() == 0
    }

    /// Puts `other` behind this path.
    pub fn join(&self, other: &FsPath) -> (res: FsPath)
        ensures
            res@ == joined(self@, other@),
    {
        if other.is_absolute() {
            return other.clone();
        }
        let mut bytes = copy_bytes(&self.bytes, 0, self.bytes.len());
        assert(bytes@ =~= self.bytes@);
        if bytes.len() > 0 && bytes[bytes.len() - 1] != SLASH {
            bytes.push(SLASH);
        }
        append_bytes(&mut bytes, &other.bytes);
        FsPath { bytes }
    }

    /// Puts the path written as `text` behind this path.
    pub fn join_text(&self, text: &str) -> (res: FsPath)
        ensures
            res@ == joined(self@, encode_utf8(text@)),
    {
        self.join(&FsPath::new(text))
    }

    fn trimmed_len(&self) -> (n: usize)
        ensures
            n <= self.bytes@.len(),
            self.bytes@.take(n as int) == trimmed_path(self.bytes@),
            n == trimmed_path(self.bytes@).len(),
    {
        let mut n: usize = self.bytes.len();
        assert(self.bytes@.take(n as int) =~= self.bytes@);
        while n > 1 && (self.bytes[n - 1] == SLASH || (self.bytes[n - 1] == DOT && self.bytes[n - 2]
            == SLASH))
            invariant
                n <= self.bytes@.len(),
                trimmed_path(self.bytes@.take(n as int)) == trimmed_path(self.bytes@),
            decreases n,
        {
            assert(self.bytes@.take(n as int).last() == self.bytes@[n - 1]);
            assert(self.bytes@.take(n as int).drop_last() =~= self.bytes@.take(n - 1));
            n -= 1;
        }
        if n > 1 {
            assert(self.bytes@.take(n as int).last() == self.bytes@[n - 1]);
        }
        n
    }

    fn name_offset(&self, n: usize) -> (k: usize)
        requires
            n <= self.bytes@.len(),
        ensures
            k <= n,
            k == name_start(self.bytes@.take(n as int)),
    {
        let mut k: usize = n;
        while k > 0 && self.bytes[k - 1] != SLASH
            invariant
                k <= n <= self.bytes@.len(),
                name_start(self.bytes@.take(k as int)) == name_start(self.bytes@.take(n as int)),
            decreases k,
        {
            assert(self.bytes@.take(k as int).last() == self.bytes@[k - 1]);
            assert(self.bytes@.take(k as int).drop_last() =~= self.bytes@.take(k - 1));
            k -= 1;
        }
        if k > 0 {
            assert(self.bytes@.take(k as int).last() == self.bytes@[k - 1]);
        }
        k
    }

    fn split(&self) -> (res: Option<(FsPath, FsPath)>)
        ensures
            bare(self@) <==> res is None,
            res matches Some((stem, name)) ==> stem@ == stem_path(self@) && name@ == last_name(
                self@,
            ),
    {
        let n = self.trimmed_len();
        let ghost t = trimmed_path(self@);
        if n == 0 {
            return None;
        }
        if n == 1 && self.bytes[0] == SLASH {
            assert(t =~= seq![SLASH]);
            return None;
        }
        assert(t != seq![SLASH]) by {
            if t == seq![SLASH] {
                assert(t[0] == self.bytes@[0]);
            }
        }
        let k = self.name_offset(n);
        let stem = FsPath { bytes: copy_bytes(&self.bytes, 0, k) };
        let m = stem.trimmed_len();
        let name = FsPath { bytes: copy_bytes(&self.bytes, k, n) };
        assert(stem@ =~= t.take(k as int));
        assert(name@ =~= t.skip(k as int));
        let short = FsPath { bytes: copy_bytes(&stem.bytes, 0, m) };
        assert(short@ =~= stem@.take(m as int));
        Some((short, name))
    }

    /// The parent directory.
    pub fn parent(&self) -> (res: Option<FsPath>)
        ensures
            opt_path(res) == parent_path(self@),
    {
        match self.split() {
            Some((stem, _)) => Some(stem),
            None => None,
        }
    }

    /// The final name.
    pub fn file_name(&self) -> (res: Option<FsPath>)
        ensures
            opt_path(res) == file_name_bytes(self@),
    {
        match self.split() {
            Some((_, name)) => {
                let len: usize = name.bytes.len();
                if len == 1 && name.bytes[0] == DOT {
                    assert(name@ =~= seq![DOT]);
                    None
                } else if len == 2 && name.bytes[0] == DOT && name.bytes[1] == DOT {
                    assert(name@ =~= seq![DOT, DOT]);
                    None
                } else {
                    Some(name)
                }
            },
            None => None,
        }
    }

    /// The components of the path.
    pub fn parts(&self) -> (res: Vec<FsPath>)
        ensures
            paths_view(res@) == components(self@),
        decreases self@.len(),
    {
        match self.split() {
            None => {
                let mut out: Vec<FsPath> = Vec::new();
                if self.is_absolute() {
                    out.push(FsPath { bytes: vec![SLASH] });
                    assert(out@[0]@ =~= seq![SLASH]);
                }
                assert(paths_view(out@) =~= components(self@));
                out
            },
            Some((stem, name)) => {
                proof {
                    lemma_stem_shrinks(self@);
                }
                let mut out = stem.parts();
                let ghost before = out@;
                out.push(name);
                assert(paths_view(out@) =~= paths_view(before).push(name@));
                out
            },
        }
    }

    /// Whether two paths have the same components.
    pub fn same_path(&self, other: &FsPath) -> (res: bool)
        ensures
            res == (components(self@) == components(other@)),
    {
        let a = self.parts();
        let b = other.parts();
        if a.len() != b.len() {
            assert(paths_view(a@).len() != paths_view(b@).len());
            return false;
        }
        same_prefix(&a, &b, a.len())
    }

    /// Whether the path lies strictly below `outer`.
    pub fn is_strictly_within(&self, outer: &FsPath) -> (res: bool)
        ensures
            res == strictly_within(outer@, self@),
    {
        let a = outer.parts();
        let b = self.parts();
        let ghost ca = components(outer@);
        let ghost cb = components(self@);
        assert(ca.len() == a@.len() && cb.len() == b@.len());
        if a.len() > b.len() {
            return false;
        }
        let same = same_prefix(&a, &b, a.len());
        assert(paths_view(a@).take(a@.len() as int) =~= ca);
        assert(ca.is_prefix_of(cb) <==> ca == cb.take(ca.len() as int)) by {
            assert(cb.take(ca.len() as int) =~= cb.subrange(0, ca.len() as int));
        }
        if a.len() == b.len() {
            assert(cb.take(ca.len() as int) =~= cb);
            false
        } else {
            same
        }
    }

    /// Whether the path's first component is `~`.
    pub fn starts_at_home(&self) -> (res: bool)
        ensures
            res == (components(self@).len() > 0 && components(self@)[0] == seq![TILDE]),
    {
        let v = self.parts();
        assert(components(self@).len() == v@.len());
        if v.len() == 0 {
            return false;
        }
        assert(components(self@)[0] == v@[0]@);
        let first = &v[0];
        if first.bytes.len() == 1 && first.bytes[0] == TILDE {
            assert(first@ =~= seq![TILDE]);
            true
        } else {
            false
        }
    }
}

fn same_prefix(a: &Vec<FsPath>, b: &Vec<FsPath>, n: usize) -> (res: bool)
    requires
        n <= a.len(),
        n <= b.len(),
    ensures
        res == (paths_view(a@).take(n as int) == paths_view(b@).take(n as int)),
        n == a.len() && n == b.len() ==> res == (paths_view(a@) == paths_view(b@)),
{
    let mut i: usize = 0;
    while i < n
        invariant
            i <= n,
            n <= a.len(),
            n <= b.len(),
            forall|k: int| 0 <= k < i ==> #[trigger] a@[k]@ == b@[k]@,
        decreases n - i,
    {
        if !same_bytes(&a[i].bytes, &b[i].bytes) {
            assert(paths_view(a@).take(n as int)[i as int] != paths_view(b@).take(n as int)[i as int]);
            assert(paths_view(a@)[i as int] != paths_view(b@)[i as int]);
            return false;
        }
        i += 1;
    }
    assert(paths_view(a@).take(n as int) =~= paths_view(b@).take(n as int));
    if n == a.len() && n == b.len() {
        assert(paths_view(a@) =~= paths_view(b@));
    }
    true
}

/// Whether a path with the same components is in the list.
pub open spec fn holds_path(list: Seq<Seq<u8>>, p: Seq<u8>) -> bool {
    exists|i: int| 0 <= i < list.len() && components(#[trigger] list[i]) == components(p)
}

/// Whether the list holds a path with the same components as `p`.
pub fn contains_path(list: &Vec<FsPath>, p: &FsPath) -> (res: bool)
    ensures
        res == holds_path(paths_view(list@), p@),
{
    let mut i: usize = 0;
    while i < list.len()
        invariant
            i <= list.len(),
            forall|k: int| 0 <= k < i ==> components(#[trigger] paths_view(list@)[k]) != components(p@),
        decreases list.len() - i,
    {
        let same = list[i].same_path(p);
        assert(paths_view(list@)[i as int] == list@[i as int]@);
        if same {
            return true;
        }
        i += 1;
    }
    false
}

/// A copy of a list of paths.
pub fn copy_paths(v: &Vec<FsPath>) -> (res: Vec<FsPath>)
    ensures
        paths_view(res@) == paths_view(v@),
{
    let mut out: Vec<FsPath> = Vec::new();
    let mut i: usize = 0;
    while i < v.len()
        invariant
            i <= v.len(),
            out.len() == i,
            forall|k: int| 0 <= k < i ==> #[trigger] out@[k]@ == v@[k]@,
        decreases v.len() - i,
    {
        out.push(v[i].clone());
        i += 1;
    }
    assert(paths_view(out@) =~= paths_view(v@));
    out
}

/// Separators at the end of a path carry no meaning, nor do lone dots behind a
/// separator: the components stay the same.
pub proof fn law_trailing_separators_mean_nothing(p: Seq<u8>)
    requires
        p.len() > 0,
    ensures
        components(p.push(SLASH)) == components(p),
        p.last() == SLASH ==> components(p.push(DOT)) == components(p),
{
    let q = p.push(SLASH);
    assert(q.drop_last() =~= p);
    assert(trimmed_path(q) == trimmed_path(p));
    lemma_components_of_trimmed(p);
    lemma_components_of_trimmed(q);
    if p.last() == SLASH {
        let d = p.push(DOT);
        assert(d.drop_last() =~= p);
        assert(d[d.len() - 2] == SLASH);
        assert(trimmed_path(d) == trimmed_path(p));
        lemma_components_of_trimmed(d);
    }
}

/// A path put behind a base: an absolute one stands by itself, and nothing
/// behind the empty base changes. The last name of a joined path is what was
/// joined, unless it means the directory above.
pub proof fn law_an_absolute_path_replaces_its_base(base: Seq<u8>, p: Seq<u8>)
    ensures
        rooted(p) ==> joined(base, p) == p,
        base.len() == 0 ==> joined(base, p) == p,
        rooted(base) && !rooted(p) ==> rooted(joined(base, p)) && base.is_prefix_of(
            joined(base, p),
        ),
        plain_name(p) && p != seq![DOT, DOT] ==> file_name_bytes(joined(base, p)) == Some(p),
{
    if base.len() == 0 && !rooted(p) {
        assert(base + p =~= p);
    }
    if !rooted(p) {
        assert(base =~= joined(base, p).take(base.len() as int));
    }
    if plain_name(p) {
        law_join_adds_a_component(base, p);
        let j = joined(base, p);
        assert(components(j).last() == p);
        if bare(j) {
            assert(parent_path(j) is None);
        }
        assert(components(j) == components(stem_path(j)).push(last_name(j)));
        assert(components(j).last() == last_name(j));
    }
}

/// Two hidden names put behind the same base give the same path only where they
/// are the same.
pub proof fn lemma_same_joined_name(base: Seq<u8>, a: Seq<char>, b: Seq<char>)
    requires
        a.len() > 0,
        b.len() > 0,
        a[0] == '.',
        b[0] == '.',
        joined(base, encode_utf8(a)) == joined(base, encode_utf8(b)),
    ensures
        a == b,
{
    let (x, y) = (encode_utf8(a), encode_utf8(b));
    lemma_starts_with_a_dot(a);
    lemma_starts_with_a_dot(b);
    let head = if base.len() == 0 || base.last() == SLASH {
        base
    } else {
        base.push(SLASH)
    };
    assert(joined(base, x) =~= head + x);
    assert(joined(base, y) =~= head + y);
    assert((head + x).skip(head.len() as int) =~= x);
    assert((head + y).skip(head.len() as int) =~= y);
    encode_utf8_decode_utf8(a);
    encode_utf8_decode_utf8(b);
}

proof fn lemma_starts_with_a_dot(s: Seq<char>)
    requires
        s.len() > 0,
        s[0] == '.',
    ensures
        encode_utf8(s).len() > 0,
        encode_utf8(s)[0] == DOT,
{
    let head = seq!['.'];
    assert(is_ascii_chars(head));
    is_ascii_chars_encode_utf8(head);
    assert(head.drop_first() =~= Seq::<char>::empty());
    assert(head[0] as u8 == encode_utf8(head)[0]);
    assert(encode_utf8(head) =~= encode_scalar(s[0] as u32)) by {
        reveal_with_fuel(encode_utf8, 2);
    }
    assert(encode_utf8(s)[0] == encode_utf8(head)[0]);
}

/// A lone dot within a path carries no meaning either: a name behind it lies
/// directly in the base.
pub proof fn law_a_dot_within_a_path_means_nothing(base: Seq<u8>, name: Seq<u8>)
    requires
        base.len() > 0,
        plain_name(name),
    ensures
        components(joined(joined(base, seq![DOT]), name)) == components(base).push(name),
{
    let slashed = if base.last() == SLASH {
        base
    } else {
        base.push(SLASH)
    };
    law_trailing_separators_mean_nothing(base);
    law_trailing_separators_mean_nothing(slashed);
    assert(joined(base, seq![DOT]) =~= slashed.push(DOT));
    law_join_adds_a_component(joined(base, seq![DOT]), name);
}

} // verus!
