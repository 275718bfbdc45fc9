//! Records of the native operation journal.
use crate::text::{chars_of, split_chars, split_on};
use crate::ui::diff_file_header::same_str;
use crate::ui::syntax::ascii_lower;
use vstd::prelude::*;
use vstd::utf8::{decode_utf8, valid_utf8};

verus! {

/// Where HEAD points: a symbolic reference (none when detached) and the
/// commit.
#[derive(Debug, Clone)]
pub struct Head {
    pub reference: Option<String>,
    pub oid: String,
}

impl Head {
    /// A detached HEAD at `oid`.
    pub fn detached(oid: String) -> (h: Self)
        ensures
            h.reference is None,
            h.oid == oid,
    {
        Head { reference: None, oid }
    }
}

/// Why a path recorded by the journal cannot be used.
pub open spec fn not_utf8_reason() -> Seq<char> {
    "native history requires UTF-8 file names"@
}

pub open spec fn invalid_path_reason() -> Seq<char> {
    "invalid path in native operation"@
}

/// Whether `p` has a component other than a plain name: it starts at the
/// root (`/`), starts with `.`, or goes up (`..`), as `Path::components`
/// reads it.
pub open spec fn has_special_component(p: Seq<char>) -> bool {
    let parts = split_on(p, '/');
    ||| (p.len() > 0 && p[0] == '/')
    ||| parts[0] == seq!['.']
    ||| exists|i: int| 0 <= i < parts.len() && #[trigger] parts[i] == seq!['.', '.']
}

/// Whether `part` is `.git`, ignoring ASCII case.
pub open spec fn is_git_dir_name(part: Seq<char>) -> bool {
    part.len() == 4 && part[0] == '.' && ascii_lower(part[1]) == 'g' && ascii_lower(part[2]) == 'i' && ascii_lower(part[3]) == 't'
}

/// Whether one of the `/`-separated parts of `p` is `.git`.
pub open spec fn names_git_dir(p: Seq<char>) -> bool {
    exists|i: int| 0 <= i < split_on(p, '/').len() && is_git_dir_name(#[trigger] split_on(p, '/')[i])
}

/// A journal path as text, if it is a usable relative path: UTF-8, not
/// empty, made of plain names only and not inside a `.git` directory.
pub open spec fn spec_checked_relative(bytes: Seq<u8>) -> Result<Seq<char>, Seq<char>> {
    if !valid_utf8(bytes) {
        Err(not_utf8_reason())
    } else {
        let p = decode_utf8(bytes);
        if p.len() == 0 || has_special_component(p) || names_git_dir(p) {
            Err(invalid_path_reason())
        } else {
            Ok(p)
        }
    }
}

/// `std::str::from_utf8(bytes)`, as an owned string. The contract claims
/// what the standard library documents: the call fails exactly when the
/// bytes are not UTF-8, and otherwise gives their text.
#[verifier::external_body]
fn utf8_text(bytes: &[u8]) -> (r: Option<String>)
    ensures
        match r {
            Some(s) => valid_utf8(bytes@) && s@ == decode_utf8(bytes@),
            None => !valid_utf8(bytes@),
        },
{
    std::str::from_utf8(bytes).ok().map(|s| s.to_string())
}

fn is_git_dir_name_exec(part: &Vec<char>) -> (r: bool)
    ensures
        r == is_git_dir_name(part@),
{
    if part.len() != 4 {
        return false;
    }
    let lower = |c: char| -> (l: char)
        ensures
            l == ascii_lower(c),
        {
            if 'A' <= c && c <= 'Z' {
                ((c as u32) + 32) as u8 as char
            } else {
                c
            }
        };
    part[0] == '.' && lower(part[1]) == 'g' && lower(part[2]) == 'i' && lower(part[3]) == 't'
}

/// The text of a journal path, or why it cannot be used.
pub fn checked_relative(bytes: &[u8]) -> (r: Result<String, String>)
    ensures
        match r {
            Ok(s) => spec_checked_relative(bytes@) == Ok::<Seq<char>, Seq<char>>(s@),
            Err(e) => spec_checked_relative(bytes@) == Err::<Seq<char>, Seq<char>>(e@),
        },
{
    let text = match utf8_text(bytes) {
        Some(t) => t,
        None => return Err(String::from_str("native history requires UTF-8 file names")),
    };
    let v = chars_of(text.as_str());
    let parts = split_chars(&v, '/');
    proof {
        crate::text::lemma_split_nonempty(v@, '/');
    }
    let ghost pv = parts@.map_values(|q: Vec<char>| q@);
    let mut bad = v.len() == 0 || v[0] == '/';
    if !bad {
        let first = &parts[0];
        assert(pv[0] == first@);
        bad = first.len() == 1 && first[0] == '.';
        assert(bad == (pv[0] == seq!['.'])) by {
            if pv[0] == seq!['.'] {
                assert(pv[0].len() == 1);
            }
            if first@.len() == 1 && first@[0] == '.' {
                assert(first@ == seq!['.']);
            }
        }
    }
    let mut i: usize = 0;
    let mut up = false;
    let mut git = false;
    while i < parts.len()
        invariant
            i <= parts@.len(),
            pv == parts@.map_values(|q: Vec<char>| q@),
            pv == split_on(v@, '/'),
            up == exists|k: int| 0 <= k < i && #[trigger] pv[k] == seq!['.', '.'],
            git == exists|k: int| 0 <= k < i && is_git_dir_name(#[trigger] pv[k]),
        decreases parts@.len() - i,
    {
        let q = &parts[i];
        assert(pv[i as int] == q@);
        let is_up = q.len() == 2 && q[0] == '.' && q[1] == '.';
        assert(is_up == (q@ == seq!['.', '.'])) by {
            if q@ == seq!['.', '.'] {
                assert(q@.len() == 2);
            }
            if q@.len() == 2 && q@[0] == '.' && q@[1] == '.' {
                assert(q@ == seq!['.', '.']);
            }
        }
        let is_git = is_git_dir_name_exec(q);
        up = up || is_up;
        git = git || is_git;
        i = i + 1;
    }
    proof {
        assert(text@ == v@);
    }
    if bad || up || git {
        return Err(String::from_str("invalid path in native operation"));
    }
    Ok(text)
}

/// One recorded index entry.
#[derive(Debug, Clone)]
pub struct Entry {
    pub path: Vec<u8>,
    pub oid: String,
    pub mode: u32,
    pub stage: u16,
    pub flags_extended: u16,
    pub assume_valid: bool,
}

/// An entry as plain values.
pub type EntryView = (Seq<u8>, Seq<char>, u32, u16, u16, bool);

pub open spec fn entry_view(e: Entry) -> EntryView {
    (e.path@, e.oid@, e.mode, e.stage, e.flags_extended, e.assume_valid)
}

/// A recorded index: its entries in order.
#[derive(Debug, Clone)]
pub struct IndexImage(pub Vec<Entry>);

pub open spec fn image_view(img: IndexImage) -> Seq<EntryView> {
    img.0@.map_values(|e: Entry| entry_view(e))
}

/// Whether two recorded indexes hold the same entries.
pub fn same_index(a: &IndexImage, b: &IndexImage) -> (r: bool)
    ensures
        r == (image_view(*a) == image_view(*b)),
{
    if a.0.len() != b.0.len() {
        assert(image_view(*a).len() != image_view(*b).len());
        return false;
    }
    let mut i: usize = 0;
    while i < a.0.len()
        invariant
            a.0@.len() == b.0@.len(),
            i <= a.0@.len(),
            forall|k: int| 0 <= k < i ==> image_view(*a)[k] == image_view(*b)[k],
        decreases a.0@.len() - i,
    {
        assert(image_view(*a)[i as int] == entry_view(a.0@[i as int]));
        assert(image_view(*b)[i as int] == entry_view(b.0@[i as int]));
        if !same_entry(&a.0[i], &b.0[i]) {
            return false;
        }
        i = i + 1;
    }
    assert(image_view(*a) =~= image_view(*b));
    true
}

/// The entries of `image` for `path`, in order.
pub open spec fn entries_with(image: Seq<EntryView>, path: Seq<u8>) -> Seq<EntryView>
    decreases image.len(),
{
    if image.len() == 0 {
        Seq::empty()
    } else {
        let prev = entries_with(image.drop_last(), path);
        if image.last().0 == path {
            prev.push(image.last())
        } else {
            prev
        }
    }
}

/// Lexicographic order of byte strings.
pub open spec fn bytes_lt(a: Seq<u8>, b: Seq<u8>) -> bool
    decreases a.len(),
{
    if a.len() == 0 {
        b.len() > 0
    } else if b.len() == 0 {
        false
    } else if a[0] != b[0] {
        a[0] < b[0]
    } else {
        bytes_lt(a.drop_first(), b.drop_first())
    }
}

proof fn lemma_bytes_lt_order(a: Seq<u8>, b: Seq<u8>, c: Seq<u8>)
    ensures
        !bytes_lt(a, a),
        !(bytes_lt(a, b) && bytes_lt(b, a)),
        bytes_lt(a, b) && bytes_lt(b, c) ==> bytes_lt(a, c),
        a != b ==> bytes_lt(a, b) || bytes_lt(b, a),
    decreases a.len(),
{
    if a.len() > 0 {
        if b.len() > 0 && c.len() > 0 {
            lemma_bytes_lt_order(a.drop_first(), b.drop_first(), c.drop_first());
        } else if b.len() > 0 {
            lemma_bytes_lt_order(a.drop_first(), b.drop_first(), b.drop_first());
        } else {
            lemma_bytes_lt_order(a.drop_first(), a.drop_first(), a.drop_first());
        }
        if b.len() > 0 && a[0] == b[0] && a.drop_first() == b.drop_first() {
            assert(a == seq![a[0]] + a.drop_first());
            assert(b == seq![b[0]] + b.drop_first());
        }
    } else if b.len() == 0 {
        assert(a == b);
    }
}

/// The paths whose entries differ between two images.
pub open spec fn changed_paths(after: Seq<EntryView>, before: Seq<EntryView>) -> Set<Seq<u8>> {
    Set::new(|p: Seq<u8>| (has_path(after, p) || has_path(before, p)) && entries_with(after, p) != entries_with(before, p))
}

/// An image compared with itself has no changed path.
pub proof fn lemma_no_change_against_itself(img: IndexImage)
    ensures
        changed_paths(image_view(img), image_view(img)) == Set::<Seq<u8>>::empty(),
{
    assert(changed_paths(image_view(img), image_view(img)) =~= Set::<Seq<u8>>::empty());
}

/// Which image is "before" does not matter: the changed paths of two images
/// are the same either way.
pub proof fn lemma_changed_paths_symmetric(a: IndexImage, b: IndexImage)
    ensures
        changed_paths(image_view(a), image_view(b)) == changed_paths(image_view(b), image_view(a)),
{
    assert(changed_paths(image_view(a), image_view(b)) =~= changed_paths(image_view(b), image_view(a)));
}

/// A set has one listing only: two lists that each hold its members once, in
/// increasing order, are the same list.
pub proof fn lemma_listing_unique(l1: Seq<Seq<u8>>, l2: Seq<Seq<u8>>, set: Set<Seq<u8>>)
    requires
        is_listing(l1, set),
        is_listing(l2, set),
    ensures
        l1 == l2,
    decreases l1.len(),
{
    if l1.len() == 0 {
        if l2.len() > 0 {
            assert(l2.contains(l2[0]));
            assert(set.contains(l2[0]));
            assert(l1.contains(l2[0]));
        }
        assert(l1 =~= l2);
    } else {
        let x = l1[0];
        assert(l1.contains(x));
        assert(l2.contains(x));
        let j = choose|j: int| 0 <= j < l2.len() && l2[j] == x;
        let y = l2[0];
        assert(l2.contains(y));
        assert(l1.contains(y));
        let i = choose|i: int| 0 <= i < l1.len() && l1[i] == y;
        if j > 0 {
            assert(bytes_lt(l2[0], l2[j]));
            if i > 0 {
                assert(bytes_lt(l1[0], l1[i]));
                lemma_bytes_lt_order(x, y, x);
            } else {
                lemma_bytes_lt_order(y, y, y);
            }
        }
        assert(j == 0);
        let r1 = l1.drop_first();
        let r2 = l2.drop_first();
        let rest = set.remove(x);
        assert forall|a: int, b: int| 0 <= a < b < r1.len() implies bytes_lt(#[trigger] r1[a], #[trigger] r1[b]) by {
            assert(r1[a] == l1[a + 1] && r1[b] == l1[b + 1]);
        }
        assert forall|a: int, b: int| 0 <= a < b < r2.len() implies bytes_lt(#[trigger] r2[a], #[trigger] r2[b]) by {
            assert(r2[a] == l2[a + 1] && r2[b] == l2[b + 1]);
        }
        assert forall|p: Seq<u8>| rest.contains(p) <==> r1.contains(p) by {
            if r1.contains(p) {
                let k = choose|k: int| 0 <= k < r1.len() && r1[k] == p;
                assert(l1[k + 1] == p);
                assert(l1.contains(p));
                assert(bytes_lt(l1[0], l1[k + 1]));
                lemma_bytes_lt_order(x, x, x);
            }
            if rest.contains(p) {
                assert(l1.contains(p));
                let k = choose|k: int| 0 <= k < l1.len() && l1[k] == p;
                assert(k != 0);
                assert(r1[k - 1] == p);
            }
        }
        assert forall|p: Seq<u8>| rest.contains(p) <==> r2.contains(p) by {
            if r2.contains(p) {
                let k = choose|k: int| 0 <= k < r2.len() && r2[k] == p;
                assert(l2[k + 1] == p);
                assert(l2.contains(p));
                assert(bytes_lt(l2[0], l2[k + 1]));
                lemma_bytes_lt_order(x, x, x);
            }
            if rest.contains(p) {
                assert(l2.contains(p));
                let k = choose|k: int| 0 <= k < l2.len() && l2[k] == p;
                assert(k != 0);
                assert(r2[k - 1] == p);
            }
        }
        lemma_listing_unique(r1, r2, rest);
        assert(l1 =~= seq![x] + r1);
        assert(l2 =~= seq![x] + r2);
    }
}

/// Comparing two images in either order lists the same changed paths in the
/// same order, so `paths_changed_from` gives the same result both ways.
pub proof fn lemma_changed_listing_either_order(a: IndexImage, b: IndexImage, l1: Seq<Seq<u8>>, l2: Seq<Seq<u8>>)
    requires
        is_listing(l1, changed_paths(image_view(a), image_view(b))),
        is_listing(l2, changed_paths(image_view(b), image_view(a))),
    ensures
        l1 == l2,
{
    lemma_changed_paths_symmetric(a, b);
    lemma_listing_unique(l1, l2, changed_paths(image_view(a), image_view(b)));
}

/// Whether every entry of an image has a usable path.
pub open spec fn all_paths_usable(image: Seq<EntryView>) -> bool {
    forall|i: int| 0 <= i < image.len() ==> (#[trigger] spec_checked_relative(image[i].0)) is Ok
}

/// `list` holds the members of `set`, each once, in increasing order.
pub open spec fn is_listing(list: Seq<Seq<u8>>, set: Set<Seq<u8>>) -> bool {
    &&& forall|i: int, j: int| 0 <= i < j < list.len() ==> bytes_lt(#[trigger] list[i], #[trigger] list[j])
    &&& forall|p: Seq<u8>| set.contains(p) <==> list.contains(p)
}

pub(crate) fn bytes_less(a: &Vec<u8>, b: &Vec<u8>) -> (r: bool)
    ensures
        r == bytes_lt(a@, b@),
{
    let mut i: usize = 0;
    assert(a@.subrange(0, a@.len() as int) == a@);
    assert(b@.subrange(0, b@.len() as int) == b@);
    while i < a.len() && i < b.len() && a[i] == b[i]
        invariant
            i <= a@.len(),
            i <= b@.len(),
            bytes_lt(a@, b@) == bytes_lt(a@.subrange(i as int, a@.len() as int), b@.subrange(i as int, b@.len() as int)),
        decreases a@.len() - i,
    {
        assert(a@.subrange(i as int, a@.len() as int).drop_first() == a@.subrange(i + 1, a@.len() as int));
        assert(b@.subrange(i as int, b@.len() as int).drop_first() == b@.subrange(i + 1, b@.len() as int));
        i = i + 1;
    }
    if i == a.len() {
        i < b.len()
    } else if i == b.len() {
        false
    } else {
        a[i] < b[i]
    }
}

pub(crate) fn same_bytes(a: &Vec<u8>, b: &Vec<u8>) -> (r: bool)
    ensures
        r == (a@ == b@),
{
    if a.len() != b.len() {
        return false;
    }
    let mut i: usize = 0;
    while i < a.len()
        invariant
            a@.len() == b@.len(),
            i <= a@.len(),
            forall|k: int| 0 <= k < i ==> a@[k] == b@[k],
        decreases a@.len() - i,
    {
        if a[i] != b[i] {
            return false;
        }
        i = i + 1;
    }
    assert(a@ == b@);
    true
}

pub(crate) fn copy_bytes(a: &Vec<u8>) -> (r: Vec<u8>)
    ensures
        r@ == a@,
{
    let mut r: Vec<u8> = Vec::new();
    let mut i: usize = 0;
    while i < a.len()
        invariant
            i <= a@.len(),
            r@ == a@.subrange(0, i as int),
        decreases a@.len() - i,
    {
        r.push(a[i]);
        i = i + 1;
    }
    assert(a@.subrange(0, a@.len() as int) == a@);
    r
}

pub(crate) fn same_entry(a: &Entry, b: &Entry) -> (r: bool)
    ensures
        r == (entry_view(*a) == entry_view(*b)),
{
    same_bytes(&a.path, &b.path) && same_str(a.oid.as_str(), b.oid.as_str()) && a.mode == b.mode && a.stage == b.stage
        && a.flags_extended == b.flags_extended && a.assume_valid == b.assume_valid
}

/// The entries of `image` for `path`, as plain values, compared between two
/// images.
fn same_entries_for(after: &IndexImage, before: &IndexImage, path: &Vec<u8>) -> (r: bool)
    ensures
        r == (entries_with(image_view(*after), path@) == entries_with(image_view(*before), path@)),
{
    let a = entries_for(after, path);
    let b = entries_for(before, path);
    let ghost av = a@.map_values(|e: Entry| entry_view(e));
    let ghost bv = b@.map_values(|e: Entry| entry_view(e));
    if a.len() != b.len() {
        assert(av.len() != bv.len());
        return false;
    }
    let mut i: usize = 0;
    while i < a.len()
        invariant
            av == a@.map_values(|e: Entry| entry_view(e)),
            bv == b@.map_values(|e: Entry| entry_view(e)),
            av == entries_with(image_view(*after), path@),
            bv == entries_with(image_view(*before), path@),
            a@.len() == b@.len(),
            i <= a@.len(),
            forall|k: int| 0 <= k < i ==> entry_view(a@[k]) == entry_view(b@[k]),
        decreases a@.len() - i,
    {
        if !same_entry(&a[i], &b[i]) {
            assert(a@.map_values(|e: Entry| entry_view(e))[i as int] != b@.map_values(|e: Entry| entry_view(e))[i as int]);
            return false;
        }
        i = i + 1;
    }
    assert(a@.map_values(|e: Entry| entry_view(e)) == b@.map_values(|e: Entry| entry_view(e)));
    true
}

fn entries_for(img: &IndexImage, path: &Vec<u8>) -> (r: Vec<Entry>)
    ensures
        r@.map_values(|e: Entry| entry_view(e)) == entries_with(image_view(*img), path@),
{
    let ghost iv = image_view(*img);
    let mut r: Vec<Entry> = Vec::new();
    let mut i: usize = 0;
    while i < img.0.len()
        invariant
            i <= img.0@.len(),
            iv == image_view(*img),
            r@.map_values(|e: Entry| entry_view(e)) == entries_with(iv.subrange(0, i as int), path@),
        decreases img.0@.len() - i,
    {
        assert(iv.subrange(0, i + 1).drop_last() == iv.subrange(0, i as int));
        assert(iv.subrange(0, i + 1).last() == entry_view(img.0@[i as int]));
        if same_bytes(&img.0[i].path, path) {
            let ghost before = r@.map_values(|e: Entry| entry_view(e));
            r.push(img.0[i].clone_entry());
            assert(r@.map_values(|e: Entry| entry_view(e)) == before.push(entry_view(img.0@[i as int])));
        }
        i = i + 1;
    }
    assert(iv.subrange(0, img.0@.len() as int) == iv);
    r
}

impl Entry {
    /// A copy of the entry.
    pub fn clone_entry(&self) -> (e: Entry)
        ensures
            entry_view(e) == entry_view(*self),
    {
        Entry {
            path: copy_bytes(&self.path),
            oid: self.oid.clone(),
            mode: self.mode,
            stage: self.stage,
            flags_extended: self.flags_extended,
            assume_valid: self.assume_valid,
        }
    }
}

pub open spec fn byte_views(v: Seq<Vec<u8>>) -> Seq<Seq<u8>> {
    v.map_values(|b: Vec<u8>| b@)
}

pub(crate) fn contains_bytes(v: &Vec<Vec<u8>>, x: &Vec<u8>) -> (r: bool)
    ensures
        r == byte_views(v@).contains(x@),
{
    let mut i: usize = 0;
    while i < v.len()
        invariant
            i <= v@.len(),
            forall|k: int| 0 <= k < i ==> byte_views(v@)[k] != x@,
        decreases v@.len() - i,
    {
        assert(byte_views(v@)[i as int] == v@[i as int]@);
        if same_bytes(&v[i], x) {
            return true;
        }
        i = i + 1;
    }
    false
}

/// Whether `p` is the path of an entry of `image`.
pub open spec fn has_path(image: Seq<EntryView>, p: Seq<u8>) -> bool {
    exists|i: int| 0 <= i < image.len() && #[trigger] image[i].0 == p
}

proof fn lemma_has_path_push(iv: Seq<EntryView>, i: int, p: Seq<u8>)
    requires
        0 <= i < iv.len(),
    ensures
        has_path(iv.subrange(0, i + 1), p) <==> (has_path(iv.subrange(0, i), p) || iv[i].0 == p),
{
    let a = iv.subrange(0, i);
    let b = iv.subrange(0, i + 1);
    if has_path(b, p) {
        let j = choose|j: int| 0 <= j < b.len() && #[trigger] b[j].0 == p;
        if j < i {
            assert(a[j].0 == p);
        }
    }
    if has_path(a, p) {
        let j = choose|j: int| 0 <= j < a.len() && #[trigger] a[j].0 == p;
        assert(b[j].0 == p);
    }
    if iv[i].0 == p {
        assert(b[i].0 == p);
    }
}

proof fn lemma_contains_push<T>(s: Seq<T>, x: T, p: T)
    ensures
        s.push(x).contains(p) <==> (s.contains(p) || p == x),
{
    if s.push(x).contains(p) {
        let j = choose|j: int| 0 <= j < s.push(x).len() && s.push(x)[j] == p;
        if j < s.len() {
            assert(s[j] == p);
        }
    }
    if s.contains(p) {
        let j = choose|j: int| 0 <= j < s.len() && s[j] == p;
        assert(s.push(x)[j] == p);
    }
    if p == x {
        assert(s.push(x)[s.len() as int] == p);
    }
}

/// Adds the paths of `img` not yet in `keys`.
fn add_paths(keys: &mut Vec<Vec<u8>>, img: &IndexImage)
    requires
        byte_views(old(keys)@).no_duplicates(),
    ensures
        byte_views(final(keys)@).no_duplicates(),
        forall|p: Seq<u8>| #[trigger] byte_views(final(keys)@).contains(p) <==> (byte_views(old(keys)@).contains(p) || has_path(image_view(*img), p)),
{
    let ghost iv = image_view(*img);
    let ghost k0 = byte_views(keys@);
    let mut i: usize = 0;
    while i < img.0.len()
        invariant
            i <= img.0@.len(),
            iv == image_view(*img),
            k0 == byte_views(old(keys)@),
            byte_views(keys@).no_duplicates(),
            forall|p: Seq<u8>| #[trigger] byte_views(keys@).contains(p) <==> (k0.contains(p) || has_path(iv.subrange(0, i as int), p)),
        decreases img.0@.len() - i,
    {
        let path = &img.0[i].path;
        assert(iv[i as int].0 == path@);
        let ghost before = byte_views(keys@);
        let present = contains_bytes(keys, path);
        if !present {
            keys.push(copy_bytes(path));
            assert(byte_views(keys@) == before.push(path@));
            proof {
                assert forall|a: int, b: int| 0 <= a < b < byte_views(keys@).len() implies byte_views(keys@)[a] != byte_views(keys@)[b] by {
                    if b == before.len() {
                        assert(before[a] == byte_views(keys@)[a]);
                    }
                }
            }
        }
        let ghost old_i = i;
        i = i + 1;
        proof {
            assert(iv.subrange(0, i as int) == iv.subrange(0, old_i + 1));
            assert forall|p: Seq<u8>| #[trigger] byte_views(keys@).contains(p) <==> (k0.contains(p) || has_path(iv.subrange(0, i as int), p)) by {
                lemma_has_path_push(iv, old_i as int, p);
                lemma_contains_push(before, path@, p);
                assert(before.contains(p) <==> (k0.contains(p) || has_path(iv.subrange(0, old_i as int), p)));
            }
        }
    }
    proof {
        assert(iv.subrange(0, img.0@.len() as int) == iv);
    }
}

/// Every byte string of `s` comes before the next ones.
pub open spec fn strictly_sorted(s: Seq<Seq<u8>>) -> bool {
    forall|i: int, j: int| 0 <= i < j < s.len() ==> bytes_lt(#[trigger] s[i], #[trigger] s[j])
}

/// Puts `x` into the sorted `r` at its place.
pub(crate) fn insert_sorted(r: &mut Vec<Vec<u8>>, x: Vec<u8>)
    requires
        strictly_sorted(byte_views(old(r)@)),
        !byte_views(old(r)@).contains(x@),
    ensures
        strictly_sorted(byte_views(final(r)@)),
        forall|p: Seq<u8>| #[trigger] byte_views(final(r)@).contains(p) <==> (byte_views(old(r)@).contains(p) || p == x@),
{
    let ghost rv = byte_views(r@);
    let mut j: usize = 0;
    while j < r.len() && !bytes_less(&x, &r[j])
        invariant
            rv == byte_views(r@),
            j <= rv.len(),
            !rv.contains(x@),
            forall|k: int| 0 <= k < j ==> bytes_lt(#[trigger] rv[k], x@),
        decreases rv.len() - j,
    {
        proof {
            assert(rv[j as int] == r@[j as int]@);
            if rv[j as int] == x@ {
                assert(rv.contains(x@));
            }
            lemma_bytes_lt_order(rv[j as int], x@, x@);
        }
        j = j + 1;
    }
    let ghost xv = x@;
    r.insert(j, x);
    proof {
        let nv = byte_views(r@);
        assert(nv == rv.insert(j as int, xv));
        if j < rv.len() {
            assert(bytes_lt(xv, rv[j as int]));
        }
        assert forall|a: int, b: int| 0 <= a < b < nv.len() implies bytes_lt(#[trigger] nv[a], #[trigger] nv[b]) by {
            if b < j {
            } else if b == j {
            } else if a == j {
                if b - 1 > j {
                    lemma_bytes_lt_order(xv, rv[j as int], rv[b - 1]);
                }
            } else if a < j {
                lemma_bytes_lt_order(rv[a], xv, rv[j as int]);
                if b - 1 > j {
                    lemma_bytes_lt_order(rv[a], rv[j as int], rv[b - 1]);
                }
            } else {
            }
        }
        assert forall|p: Seq<u8>| #[trigger] nv.contains(p) <==> (rv.contains(p) || p == xv) by {
            if nv.contains(p) {
                let k = choose|k: int| 0 <= k < nv.len() && nv[k] == p;
                if k < j {
                    assert(rv[k] == p);
                } else if k > j {
                    assert(rv[k - 1] == p);
                }
            }
            if rv.contains(p) {
                let k = choose|k: int| 0 <= k < rv.len() && rv[k] == p;
                if k < j {
                    assert(nv[k] == p);
                } else {
                    assert(nv[k + 1] == p);
                }
            }
            if p == xv {
                assert(nv[j as int] == p);
            }
        }
    }
}

impl IndexImage {
    /// The paths whose entries differ between `before` and this image, in
    /// byte order, each as text; the first path that cannot be used gives
    /// its reason instead.
    pub fn paths_changed_from(&self, before: &Self) -> (r: Result<Vec<String>, String>)
        ensures
            match r {
                Ok(v) => exists|l: Seq<Seq<u8>>|
                    {
                        &&& is_listing(l, changed_paths(image_view(*self), image_view(*before)))
                        &&& v@.len() == l.len()
                        &&& forall|k: int| 0 <= k < l.len() ==> spec_checked_relative(#[trigger] l[k]) == Ok::<Seq<char>, Seq<char>>(v@[k]@)
                    },
                Err(e) => exists|l: Seq<Seq<u8>>, n: int|
                    {
                        &&& is_listing(l, changed_paths(image_view(*self), image_view(*before)))
                        &&& 0 <= n < l.len()
                        &&& spec_checked_relative(l[n]) == Err::<Seq<char>, Seq<char>>(e@)
                        &&& forall|k: int| 0 <= k < n ==> (#[trigger] spec_checked_relative(l[k])) is Ok
                    },
            },
            all_paths_usable(image_view(*self)) && all_paths_usable(image_view(*before)) ==> r is Ok,
    {
        let ghost av = image_view(*self);
        let ghost bv = image_view(*before);
        let ghost changed = changed_paths(av, bv);
        let mut keys: Vec<Vec<u8>> = Vec::new();
        assert(byte_views(keys@) == Seq::<Seq<u8>>::empty());
        add_paths(&mut keys, self);
        let ghost k1 = byte_views(keys@);
        add_paths(&mut keys, before);
        let ghost kv = byte_views(keys@);
        let mut sorted: Vec<Vec<u8>> = Vec::new();
        assert(byte_views(sorted@) == Seq::<Seq<u8>>::empty());
        let mut i: usize = 0;
        while i < keys.len()
            invariant
                kv == byte_views(keys@),
                kv.no_duplicates(),
                i <= kv.len(),
                strictly_sorted(byte_views(sorted@)),
                forall|p: Seq<u8>| #[trigger] byte_views(sorted@).contains(p) <==> (kv.subrange(0, i as int).contains(p) && entries_with(av, p) != entries_with(bv, p)),
                av == image_view(*self),
                bv == image_view(*before),
            decreases kv.len() - i,
        {
            let ghost old_i = i;
            let ghost key = kv[i as int];
            assert(key == keys@[i as int]@);
            proof {
                assert forall|p: Seq<u8>| kv.subrange(0, i + 1).contains(p) <==> (kv.subrange(0, i as int).contains(p) || p == key) by {
                    assert(kv.subrange(0, i + 1) == kv.subrange(0, i as int).push(key));
                    lemma_contains_push(kv.subrange(0, i as int), key, p);
                }
            }
            if !same_entries_for(self, before, &keys[i]) {
                proof {
                    if kv.subrange(0, i as int).contains(key) {
                        let k = choose|k: int| 0 <= k < i && kv.subrange(0, i as int)[k] == key;
                        assert(kv[k] == kv[i as int]);
                    }
                }
                insert_sorted(&mut sorted, copy_bytes(&keys[i]));
            }
            i = i + 1;
            proof {
                assert forall|p: Seq<u8>| #[trigger] byte_views(sorted@).contains(p) <==> (kv.subrange(0, i as int).contains(p) && entries_with(av, p) != entries_with(bv, p)) by {
                    assert(kv.subrange(0, i as int) == kv.subrange(0, old_i + 1));
                }
            }
        }
        let ghost l = byte_views(sorted@);
        proof {
            assert(kv.subrange(0, kv.len() as int) == kv);
            assert forall|p: Seq<u8>| changed.contains(p) <==> l.contains(p) by {
                assert(k1.contains(p) <==> has_path(av, p));
                assert(kv.contains(p) <==> (k1.contains(p) || has_path(bv, p)));
            }
            assert(is_listing(l, changed));
        }
        let mut out: Vec<String> = Vec::new();
        let mut k: usize = 0;
        while k < sorted.len()
            invariant
                l == byte_views(sorted@),
                is_listing(l, changed_paths(image_view(*self), image_view(*before))),
                k <= l.len(),
                out@.len() == k,
                forall|m: int| 0 <= m < k ==> spec_checked_relative(#[trigger] l[m]) == Ok::<Seq<char>, Seq<char>>(out@[m]@),
            decreases l.len() - k,
        {
            assert(l[k as int] == sorted@[k as int]@);
            match checked_relative(sorted[k].as_slice()) {
                Ok(text) => {
                    out.push(text);
                },
                Err(e) => {
                    proof {
                        assert forall|m: int| 0 <= m < k implies (#[trigger] spec_checked_relative(l[m])) is Ok by {
                        }
                        assert({
                            &&& is_listing(l, changed_paths(image_view(*self), image_view(*before)))
                            &&& 0 <= k < l.len()
                            &&& spec_checked_relative(l[k as int]) == Err::<Seq<char>, Seq<char>>(e@)
                            &&& forall|m: int| 0 <= m < k ==> (#[trigger] spec_checked_relative(l[m])) is Ok
                        });
                        let ghost p = l[k as int];
                        assert(l.contains(p));
                        assert(changed_paths(image_view(*self), image_view(*before)).contains(p));
                        if all_paths_usable(image_view(*self)) && all_paths_usable(image_view(*before)) {
                            if has_path(image_view(*self), p) {
                                let w = choose|w: int| 0 <= w < image_view(*self).len() && #[trigger] image_view(*self)[w].0 == p;
                                assert(spec_checked_relative(image_view(*self)[w].0) is Ok);
                            } else {
                                let w = choose|w: int| 0 <= w < image_view(*before).len() && #[trigger] image_view(*before)[w].0 == p;
                                assert(spec_checked_relative(image_view(*before)[w].0) is Ok);
                            }
                        }
                    }
                    return Err(e);
                },
            }
            k = k + 1;
        }
        Ok(out)
    }
}

} // verus!
