//! [`Locator`]: the external name of a segment (its base) or of one of its slab backings.
//!
//! - The **primary** slab has the base url or path, with no `-N` suffix.
//! - **Heap extensions** add `-0`, `-1`, … to the host (ram / shm) or to the file stem (file).

use super::data::Registered;
use crate::chars::{
    all_digits, chars_of, decimal_chars, decimal_value, extend_chars, lemma_decimal_chars,
    parse_u16, push_decimal, rfind_char, rfind_char_before, rfind_char_in, string_of,
};
use crate::io::Kind;
use crate::paths::{
    is_plain_dir, is_plain_name, path_extension, path_file_name, path_file_stem, path_join,
    path_parent, split_file_name, std_path_extension, std_path_file_name, std_path_file_stem,
    std_path_join, std_path_parent,
};
use crate::url::{is_url_text, url_host, url_path, url_scheme, url_text, Url};
use vstd::prelude::*;
use vstd::string::*;

verus! {

/// `part` split at its last `-` when what follows is a `u16` in digits: the part before and
/// the number; otherwise `part` whole and no number.
pub open spec fn spec_strip_suffix(part: Seq<char>) -> (Seq<char>, Option<u16>) {
    match rfind_char(part, '-') {
        Some(pos) => {
            let suffix = part.skip(pos + 1);
            if suffix.len() > 0 && all_digits(suffix) && decimal_value(suffix) <= u16::MAX {
                (part.take(pos), Some(decimal_value(suffix) as u16))
            } else {
                (part, None)
            }
        },
        None => (part, None),
    }
}

/// `.` and the extension of `path`, if it has one.
pub open spec fn spec_dot_ext(path: Seq<char>) -> Option<Seq<char>> {
    match std_path_extension(path) {
        Some(e) => Some(seq!['.'] + e),
        None => None,
    }
}

/// The file name of `path`, or `path` itself when it has none.
pub open spec fn spec_file_part(path: Seq<char>) -> Seq<char> {
    match std_path_file_name(path) {
        Some(f) => f,
        None => path,
    }
}

/// The stem of `file`, or `file` itself when it has none.
pub open spec fn spec_stem_part(file: Seq<char>) -> Seq<char> {
    match std_path_file_stem(file) {
        Some(s) => s,
        None => file,
    }
}

/// `name` placed in the parent directory of `path`, when that parent is not empty.
pub open spec fn spec_in_parent(path: Seq<char>, name: Seq<char>) -> Seq<char> {
    match std_path_parent(path) {
        Some(p) => if p.len() > 0 {
            std_path_join(p, name)
        } else {
            name
        },
        None => name,
    }
}

/// A file path with the `-N` suffix taken off its stem, and that `N`.
pub open spec fn spec_strip_suffix_path(path: Seq<char>) -> (Seq<char>, Option<u16>) {
    let stem = spec_stem_part(spec_file_part(path));
    let (base_stem, idx) = spec_strip_suffix(stem);
    let base_file = match spec_dot_ext(path) {
        Some(e) => base_stem + e,
        None => base_stem,
    };
    (spec_in_parent(path, base_file), idx)
}

/// The path of heap extension `n` of the file at `path`: `-n` added to the base stem.
pub open spec fn spec_extension_path(path: Seq<char>, n: u16) -> Seq<char> {
    let base = spec_strip_suffix_path(path).0;
    let stem = spec_stem_part(spec_file_part(base));
    let numbered = stem + seq!['-'] + decimal_chars(n as nat);
    let new_file = match spec_dot_ext(base) {
        Some(e) => numbered + e,
        None => numbered,
    };
    spec_in_parent(base, new_file)
}

/// The scheme `file`.
pub open spec fn is_file_text(t: Seq<char>) -> bool {
    url_scheme(t) == "file"@
}

/// Canonical segment key of a slab url: the base path (file) or base host (ram / shm);
/// text that is no url is its own key.
pub open spec fn spec_segment_base_key(t: Seq<char>) -> Seq<char> {
    if !is_url_text(t) {
        t
    } else if is_file_text(t) {
        spec_strip_suffix_path(url_path(t)).0
    } else {
        spec_strip_suffix(url_host(t)).0
    }
}

/// The host of heap extension `n` of the ram / shm url `t`.
pub open spec fn spec_extension_host(t: Seq<char>, n: u16) -> Seq<char> {
    spec_strip_suffix(url_host(t)).0 + seq!['-'] + decimal_chars(n as nat)
}

/// The url of heap extension `n` of the slab url `t`.
pub open spec fn spec_extension(t: Seq<char>, n: u16) -> Seq<char> {
    if is_file_text(t) {
        url_text("file"@, Seq::empty(), spec_extension_path(url_path(t), n))
    } else {
        url_text(url_scheme(t), spec_extension_host(t, n), url_path(t))
    }
}

/// The extension number in the `-N` suffix of the slab url `t`, if it has one.
pub open spec fn spec_extension_index(t: Seq<char>) -> Option<u16> {
    if is_file_text(t) {
        spec_strip_suffix(spec_stem_part(spec_file_part(url_path(t)))).1
    } else {
        spec_strip_suffix(url_host(t)).1
    }
}

/// The stem of the default locator of `kind` in process `pid`.
pub open spec fn spec_default_stem(kind: Kind, pid: u32) -> Seq<char> {
    let base = "cruspy-"@ + decimal_chars(pid as nat) + "-default"@;
    match kind {
        Kind::Ram => base,
        _ => base + ".slab"@,
    }
}

/// The default locator url of `kind` in process `pid`.
pub open spec fn spec_default_url(kind: Kind, pid: u32) -> Seq<char> {
    match kind {
        Kind::Ram => url_text("ram"@, spec_default_stem(kind, pid), Seq::empty()),
        Kind::Shm => url_text("shm"@, spec_default_stem(kind, pid), Seq::empty()),
        Kind::File => url_text("file"@, Seq::empty(), "/tmp/"@ + spec_default_stem(kind, pid)),
    }
}

/// External name of a segment (base) or one of its slab backings.
#[derive(Debug)]
pub struct Locator(pub Url);

impl View for Locator {
    type V = Seq<char>;

    open spec fn view(&self) -> Seq<char> {
        self.0@
    }
}

impl Clone for Locator {
    fn clone(&self) -> (r: Self)
        ensures
            r@ == self@,
    {
        Locator(self.0.clone())
    }
}

impl Locator {
    /// `part` split at a trailing `-N`.
    fn strip_extension_suffix(part: &[char]) -> (r: (Vec<char>, Option<u16>))
        ensures
            (r.0@, r.1) == spec_strip_suffix(part@),
    {
        match rfind_char_in(part, '-') {
            Some(pos) => {
                proof {
                    lemma_rfind_found(part@, '-', part@.len() as int);
                }
                let mut suffix: Vec<char> = Vec::new();
                let mut head: Vec<char> = Vec::new();
                let n = part.len();
                let mut i: usize = 0;
                while i < n
                    invariant
                        n == part@.len(),
                        pos < n,
                        i <= n,
                        head@ == part@.take(if i <= pos { i as int } else { pos as int }),
                        suffix@ == (if i <= pos + 1 { Seq::<char>::empty() } else { part@.subrange(
                            pos + 1,
                            i as int,
                        ) }),
                    decreases n - i,
                {
                    if i < pos {
                        head.push(part[i]);
                    } else if i > pos {
                        suffix.push(part[i]);
                    }
                    i = i + 1;
                    assert(head@ =~= part@.take(if i <= pos { i as int } else { pos as int }));
                    assert(suffix@ =~= (if i <= pos + 1 { Seq::<char>::empty() } else { part@.subrange(
                        pos + 1,
                        i as int,
                    ) }));
                }
                assert(suffix@ =~= part@.skip(pos + 1));
                match parse_u16(suffix.as_slice()) {
                    Some(v) => (head, Some(v)),
                    None => (vstd::slice::slice_to_vec(part), None),
                }
            },
            None => (vstd::slice::slice_to_vec(part), None),
        }
    }

    /// `.` and the extension of `path`, if any.
    fn dot_ext(path: &str) -> (r: Option<String>)
        ensures
            crate::paths::opt_text(r) == spec_dot_ext(path@),
    {
        match path_extension(path) {
            Some(e) => {
                let mut s = String::from_str(".");
                s.append(e.as_str());
                proof {
                    reveal_strlit(".");
                    assert(s@ =~= seq!['.'] + e@);
                }
                Some(s)
            },
            None => None,
        }
    }

    /// The stem of the file name of `path` (each falling back to the text itself).
    fn stem_of(path: &str) -> (r: String)
        ensures
            r@ == spec_stem_part(spec_file_part(path@)),
    {
        let file = match path_file_name(path) {
            Some(f) => f,
            None => path.to_owned(),
        };
        match path_file_stem(file.as_str()) {
            Some(s) => s,
            None => file,
        }
    }

    /// `name` placed in the non-empty parent directory of `path`.
    fn in_parent(path: &str, name: String) -> (r: String)
        ensures
            r@ == spec_in_parent(path@, name@),
    {
        match path_parent(path) {
            Some(p) => {
                if p.as_str().unicode_len() > 0 {
                    path_join(p.as_str(), name.as_str())
                } else {
                    name
                }
            },
            None => name,
        }
    }

    /// A file path with the `-N` suffix taken off its stem, and that `N`.
    fn strip_extension_suffix_path(path: &str) -> (r: (String, Option<u16>))
        ensures
            (r.0@, r.1) == spec_strip_suffix_path(path@),
    {
        let stem = Self::stem_of(path);
        let (base_stem, idx) = Self::strip_extension_suffix(chars_of(stem.as_str()).as_slice());
        let mut base_file = base_stem;
        match Self::dot_ext(path) {
            Some(e) => extend_chars(&mut base_file, e.as_str()),
            None => {},
        }
        let base_path = Self::in_parent(path, string_of(base_file.as_slice()));
        (base_path, idx)
    }

    /// The path of heap extension `n` of the file at `path`.
    fn extension_path(path: &str, n: u16) -> (r: String)
        ensures
            r@ == spec_extension_path(path@, n),
    {
        let (base, _) = Self::strip_extension_suffix_path(path);
        let stem = Self::stem_of(base.as_str());
        let mut file = chars_of(stem.as_str());
        file.push('-');
        push_decimal(&mut file, n as u64);
        let ghost numbered = stem@ + seq!['-'] + decimal_chars(n as nat);
        assert(file@ =~= numbered);
        let ext = Self::dot_ext(base.as_str());
        match ext {
            Some(e) => extend_chars(&mut file, e.as_str()),
            None => {},
        }
        let ghost new_file = match spec_dot_ext(base@) {
            Some(e) => numbered + e,
            None => numbered,
        };
        assert(file@ =~= new_file);
        Self::in_parent(base.as_str(), string_of(file.as_slice()))
    }

    /// Canonical segment key (primary locator) from any slab url.
    pub fn segment_base_key(url: &str) -> (r: String)
        ensures
            r@ == spec_segment_base_key(url@),
    {
        let u = match Url::parse(url) {
            Ok(u) => u,
            Err(_) => {
                return url.to_owned();
            },
        };
        if u.is_file() {
            Self::strip_extension_suffix_path(u.path()).0
        } else {
            let (h, _) = Self::strip_extension_suffix(chars_of(u.host()).as_slice());
            string_of(h.as_slice())
        }
    }

    pub fn base_key(&self) -> (r: String)
        ensures
            r@ == spec_segment_base_key(self@),
    {
        Self::segment_base_key(self.as_str())
    }

    /// Heap extension `n` (`0` gives `…-0`, `1` gives `…-1`).
    pub fn extension(&self, n: u16) -> (r: Self)
        ensures
            r@ == spec_extension(self@, n),
    {
        let url = &self.0;
        if url.is_file() {
            let path = Self::extension_path(url.path(), n);
            return Locator(Url::builder().scheme("file").path(path.as_str()).build());
        }
        let (mut host, _) = Self::strip_extension_suffix(chars_of(url.host()).as_slice());
        host.push('-');
        push_decimal(&mut host, n as u64);
        let host = string_of(host.as_slice());
        Locator(Url::builder().scheme(url.scheme()).host(host.as_str()).path(url.path()).build())
    }

    /// Extension index from the `-N` suffix, if any (`foo-2` gives `Some(2)`).
    pub fn extension_index(&self) -> (r: Option<u16>)
        ensures
            r == spec_extension_index(self@),
    {
        if self.0.is_file() {
            let stem = Self::stem_of(self.0.path());
            return Self::strip_extension_suffix(chars_of(stem.as_str()).as_slice()).1;
        }
        Self::strip_extension_suffix(chars_of(self.0.host()).as_slice()).1
    }

    /// The locator has no `-N` suffix: it names a segment's primary slab.
    pub fn is_segment_base(&self) -> (r: bool)
        ensures
            r == (spec_extension_index(self@) is None),
    {
        self.extension_index().is_none()
    }

    pub fn as_str(&self) -> (r: &str)
        ensures
            r@ == self@,
    {
        self.0.as_str()
    }

    /// The id registered for this locator.
    pub fn resolve_id(&self, registry: &super::registry::Registry) -> (r: Result<
        crate::ids::Id,
        super::error::ManagerError,
    >)
        requires
            registry.wf(),
        ensures
            registry@.ids.contains_key(self@) ==> r == Ok::<crate::ids::Id, super::error::ManagerError>(
                registry@.ids[self@],
            ),
            !registry@.ids.contains_key(self@) ==> (r matches Err(
                super::error::ManagerError::UnknownLocator(k),
            ) && k@ == self@),
    {
        registry.id(self.as_str())
    }

    pub fn scheme(&self) -> (r: &str)
        ensures
            r@ == url_scheme(self@),
    {
        self.0.scheme()
    }

    pub fn as_url(&self) -> (r: &Url)
        ensures
            r@ == self@,
    {
        &self.0
    }

    pub fn into_url(self) -> (r: Url)
        ensures
            r@ == self@,
    {
        self.0
    }

    /// The stem of the default locator of `kind` in process `pid`.
    fn default_stem(kind: Kind, pid: u32) -> (r: Vec<char>)
        ensures
            r@ == spec_default_stem(kind, pid),
    {
        let mut s = chars_of("cruspy-");
        push_decimal(&mut s, pid as u64);
        extend_chars(&mut s, "-default");
        match kind {
            Kind::Ram => {},
            _ => extend_chars(&mut s, ".slab"),
        }
        s
    }

    /// Default locator of `kind` for the process `pid`: `ram://cruspy-<pid>-default`,
    /// `shm://cruspy-<pid>-default.slab`, `file:///tmp/cruspy-<pid>-default.slab`.
    pub fn default_for_kind(kind: Kind, pid: u32) -> (r: Self)
        ensures
            r@ == spec_default_url(kind, pid),
    {
        let stem = string_of(Self::default_stem(kind, pid).as_slice());
        let url = match kind {
            Kind::Ram => Url::builder().scheme("ram").host(stem.as_str()).build(),
            Kind::Shm => Url::builder().scheme("shm").host(stem.as_str()).build(),
            Kind::File => {
                let mut path = String::from_str("/tmp/");
                path.append(stem.as_str());
                Url::builder().scheme("file").path(path.as_str()).build()
            },
        };
        Locator(url)
    }

    /// Default locator for the kind named by `scheme`, if it names one.
    pub fn default_for_scheme(scheme: &str, pid: u32) -> (r: Option<Self>)
        ensures
            r is Some <==> Kind::spec_from_scheme(scheme@) is Some,
            r matches Some(l) ==> l@ == spec_default_url(Kind::spec_from_scheme(scheme@)->0, pid),
    {
        match Kind::from_scheme(scheme) {
            Some(kind) => Some(Self::default_for_kind(kind, pid)),
            None => None,
        }
    }
}

impl From<Url> for Locator {
    fn from(value: Url) -> (r: Self) {
        Locator(value)
    }
}

impl vstd::std_specs::convert::FromSpecImpl<Url> for Locator {
    open spec fn obeys_from_spec() -> bool {
        true
    }

    open spec fn from_spec(v: Url) -> Self {
        Locator(v)
    }
}

impl From<Locator> for Url {
    fn from(value: Locator) -> (r: Self) {
        value.0
    }
}

impl vstd::std_specs::convert::FromSpecImpl<Locator> for Url {
    open spec fn obeys_from_spec() -> bool {
        true
    }

    open spec fn from_spec(v: Locator) -> Self {
        v.0
    }
}

/// What a registry key is read from.
pub trait LocatorRef {
    spec fn spec_key(&self) -> Seq<char>;

    fn locator_key(&self) -> (r: &str)
        ensures
            r@ == self.spec_key(),
    ;
}

impl LocatorRef for str {
    open spec fn spec_key(&self) -> Seq<char> {
        self@
    }

    fn locator_key(&self) -> (r: &str) {
        self
    }
}

impl LocatorRef for Url {
    open spec fn spec_key(&self) -> Seq<char> {
        self@
    }

    fn locator_key(&self) -> (r: &str) {
        self.as_str()
    }
}

impl LocatorRef for Locator {
    open spec fn spec_key(&self) -> Seq<char> {
        self@
    }

    fn locator_key(&self) -> (r: &str) {
        self.as_str()
    }
}

impl LocatorRef for Registered {
    open spec fn spec_key(&self) -> Seq<char> {
        self.locator@
    }

    fn locator_key(&self) -> (r: &str) {
        self.locator.as_str()
    }
}

impl<'a, T: LocatorRef + ?Sized> LocatorRef for &'a T {
    open spec fn spec_key(&self) -> Seq<char> {
        (**self).spec_key()
    }

    fn locator_key(&self) -> (r: &str) {
        T::locator_key(*self)
    }
}

/// What the last `c` before `n` is: a `c`, with none after it before `n`.
pub proof fn lemma_rfind_found(s: Seq<char>, c: char, n: int)
    ensures
        rfind_char_before(s, c, n) matches Some(k) ==> 0 <= k < n <= s.len() && s[k] == c
            && forall|j: int| k < j < n ==> s[j] != c,
        rfind_char_before(s, c, n) is None && 0 <= n <= s.len() ==> forall|j: int|
            0 <= j < n ==> s[j] != c,
    decreases n,
{
    if n > 0 && n <= s.len() && s[n - 1] != c {
        lemma_rfind_found(s, c, n - 1);
    }
}

/// A `c` at `k` with none after it before `n` is the last `c` before `n`.
proof fn lemma_rfind_at(s: Seq<char>, c: char, n: int, k: int)
    requires
        0 <= k < n <= s.len(),
        s[k] == c,
        forall|j: int| k < j < n ==> s[j] != c,
    ensures
        rfind_char_before(s, c, n) == Some(k),
    decreases n,
{
    if n - 1 != k {
        lemma_rfind_at(s, c, n - 1, k);
    }
}

/// The parts of ram / shm url text `t` and of the url of its heap extension `n`: the
/// extension keeps the scheme and the path, and its host is the base host with `-n`.
proof fn lemma_extension_parts(t: Seq<char>, n: u16)
    requires
        is_url_text(t),
    ensures
        is_url_text(url_text(url_scheme(t), spec_extension_host(t, n), url_path(t))),
        url_scheme(url_text(url_scheme(t), spec_extension_host(t, n), url_path(t))) == url_scheme(
            t,
        ),
        url_host(url_text(url_scheme(t), spec_extension_host(t, n), url_path(t)))
            == spec_extension_host(t, n),
        url_path(url_text(url_scheme(t), spec_extension_host(t, n), url_path(t))) == url_path(t),
        spec_strip_suffix(spec_extension_host(t, n)) == (spec_strip_suffix(url_host(t)).0, Some(
            n,
        )),
{
    let k = crate::url::sep_index(t);
    crate::url::lemma_find_sep_found(t, 0);
    let sch = url_scheme(t);
    let rest = crate::url::url_rest(t);
    let h = url_host(t);
    let p = url_path(t);
    let nh = spec_extension_host(t, n);
    let e = url_text(sch, nh, p);
    crate::chars::lemma_find_char_found(rest, '/', 0);
    // the extension's text shares the scheme and separator with `t`
    assert(t.take(k + 3) =~= sch + crate::url::sep_chars());
    assert(e.take(k + 3) =~= sch + crate::url::sep_chars());
    crate::url::lemma_find_sep_prefix(t, e, k + 3, 0);
    assert(crate::url::sep_index(e) == k);
    assert(url_scheme(e) =~= sch);
    assert(crate::url::url_rest(e) =~= nh + p);
    // the new host holds no `/`, and the path is empty or starts with one
    let base = spec_strip_suffix(h).0;
    let dec = decimal_chars(n as nat);
    lemma_decimal_chars(n as nat);
    lemma_rfind_found(h, '-', h.len() as int);
    assert forall|j: int| 0 <= j < base.len() implies base[j] != '/' by {
        assert(base[j] == h[j]);
        assert(h[j] == rest[j]);
    }
    assert forall|j: int| 0 <= j < nh.len() implies nh[j] != '/' && (j > base.len() ==> nh[j]
        != '-') by {
        if j > base.len() {
            assert(nh[j] == dec[j - base.len() - 1]);
            assert(crate::chars::is_digit(dec[j - base.len() - 1]));
        }
    }
    if p.len() > 0 {
        assert(p[0] == rest[crate::url::url_host_len(t)]);
    }
    crate::chars::lemma_find_char_concat(nh, p, '/', 0);
    assert(crate::url::url_host_len(e) == nh.len());
    assert(url_host(e) =~= nh);
    assert(url_path(e) =~= p);
    // the last `-` of the new host is the one before the numeral
    lemma_rfind_at(nh, '-', nh.len() as int, base.len() as int);
    assert(nh.skip(base.len() as int + 1) =~= dec);
    assert(nh.take(base.len() as int) =~= base);
}

/// Heap extension `n` of a ram / shm locator carries the number `n`, has the same segment
/// base key, and its own extension `m` is extension `m` of the locator it came from.
pub proof fn lemma_extension_roundtrip(t: Seq<char>, n: u16, m: u16)
    requires
        is_url_text(t),
        !is_file_text(t),
    ensures
        spec_extension_index(spec_extension(t, n)) == Some(n),
        spec_segment_base_key(spec_extension(t, n)) == spec_segment_base_key(t),
        spec_extension(spec_extension(t, n), m) == spec_extension(t, m),
        url_scheme(spec_extension(t, n)) == url_scheme(t),
{
    lemma_extension_parts(t, n);
    let e = spec_extension(t, n);
    assert(spec_extension_host(e, m) == spec_extension_host(t, m));
}

/// Heap extension `n` of any slab url is a url of the same scheme.
pub proof fn lemma_extension_keeps_scheme(t: Seq<char>, n: u16)
    requires
        is_url_text(t),
    ensures
        is_url_text(spec_extension(t, n)),
        url_scheme(spec_extension(t, n)) == url_scheme(t),
{
    if is_file_text(t) {
        let e = spec_extension(t, n);
        let f = "file"@;
        reveal_strlit("file");
        assert(e.take(f.len() as int + 3) =~= f + crate::url::sep_chars());
        assert forall|j: int| 0 <= j < f.len() implies !crate::url::is_sep_at(e, j) by {
            assert(e[j] == f[j]);
        }
        crate::url::lemma_find_sep_after_scheme(e, f, 0);
        assert(url_scheme(e) =~= f);
    } else {
        lemma_extension_parts(t, n);
    }
}

/// A stem with an optional extension after a `.`.
pub open spec fn with_ext(stem: Seq<char>, ext: Option<Seq<char>>) -> Seq<char> {
    match ext {
        Some(e) => stem + (seq!['.'] + e),
        None => stem,
    }
}

/// The file name a file named `f` has in its segment's base path: the `-N` suffix taken off
/// its stem, its extension kept.
pub open spec fn spec_base_file_name(f: Seq<char>) -> Seq<char> {
    with_ext(spec_strip_suffix(split_file_name(f).0).0, split_file_name(f).1)
}

/// The file name of heap extension `n` of a file named `bf`: `-n` after its stem, its
/// extension kept.
pub open spec fn spec_numbered_file_name(bf: Seq<char>, n: u16) -> Seq<char> {
    with_ext(split_file_name(bf).0 + seq!['-'] + decimal_chars(n as nat), split_file_name(bf).1)
}

/// No `c` before `n` means there is no last `c` before `n`.
proof fn lemma_rfind_absent(s: Seq<char>, c: char, n: int)
    requires
        n <= s.len(),
        forall|j: int| 0 <= j < n ==> s[j] != c,
    ensures
        rfind_char_before(s, c, n) is None,
    decreases n,
{
    if n > 0 {
        lemma_rfind_absent(s, c, n - 1);
    }
}

/// The last `c` of `a + b`, when `b` holds none, is the last `c` of `a`.
proof fn lemma_rfind_before_free(a: Seq<char>, b: Seq<char>, c: char, n: int)
    requires
        0 <= n <= a.len() + b.len(),
        forall|j: int| 0 <= j < b.len() ==> b[j] != c,
    ensures
        rfind_char_before(a + b, c, n) == rfind_char_before(a, c, if n < a.len() { n } else { a.len() as int }),
    decreases n,
{
    if n > 0 {
        lemma_rfind_before_free(a, b, c, n - 1);
        if n > a.len() {
            assert((a + b)[n - 1] == b[n - 1 - a.len()]);
        } else {
            assert((a + b)[n - 1] == a[n - 1]);
        }
    }
}

/// A name with `-n` at its end gives back the name and `n`.
proof fn lemma_strip_numbered(x: Seq<char>, n: u16)
    ensures
        spec_strip_suffix(x + seq!['-'] + decimal_chars(n as nat)) == (x, Some(n)),
{
    let dec = decimal_chars(n as nat);
    let part = x + seq!['-'] + dec;
    lemma_decimal_chars(n as nat);
    assert forall|j: int| x.len() < j < part.len() implies part[j] != '-' by {
        assert(part[j] == dec[j - x.len() - 1]);
        assert(crate::chars::is_digit(dec[j - x.len() - 1]));
    }
    lemma_rfind_at(part, '-', part.len() as int, x.len() as int);
    assert(part.skip(x.len() as int + 1) =~= dec);
    assert(part.take(x.len() as int) =~= x);
}

/// A plain file name splits back into itself, and its numbered name is a plain name whose
/// stem is the numbered stem and whose extension is the name's own.
proof fn lemma_numbered_split(bf: Seq<char>, n: u16)
    requires
        is_plain_name(bf),
    ensures
        with_ext(split_file_name(bf).0, split_file_name(bf).1) == bf,
        is_plain_name(spec_numbered_file_name(bf, n)),
        split_file_name(spec_numbered_file_name(bf, n)) == (
            split_file_name(bf).0 + seq!['-'] + decimal_chars(n as nat),
            split_file_name(bf).1,
        ),
        split_file_name(bf).0.len() > 0,
{
    let s2 = split_file_name(bf).0;
    let e2 = split_file_name(bf).1;
    let dec = decimal_chars(n as nat);
    lemma_decimal_chars(n as nat);
    let num = s2 + seq!['-'] + dec;
    let nf = spec_numbered_file_name(bf, n);
    lemma_rfind_found(bf, '.', bf.len() as int);
    assert(bf != seq!['.', '.']);
    assert forall|j: int| 0 <= j < dec.len() implies dec[j] != '.' && dec[j] != '/' by {
        assert(crate::chars::is_digit(dec[j]));
    }
    match rfind_char(bf, '.') {
        Some(pos) => {
            if pos == 0 {
                assert(s2 == bf && e2 is None);
                assert(nf =~= num);
                assert forall|j: int| 0 <= j < (seq!['-'] + dec).len() implies (seq!['-'] + dec)[j] != '.' by {
                    if j > 0 {
                        assert((seq!['-'] + dec)[j] == dec[j - 1]);
                    }
                }
                assert(num =~= bf + (seq!['-'] + dec));
                lemma_rfind_before_free(bf, seq!['-'] + dec, '.', num.len() as int);
                assert(rfind_char(nf, '.') == Some(0int));
            } else {
                let e = bf.skip(pos + 1);
                assert(s2 == bf.take(pos) && e2 == Some(e));
                assert(bf =~= bf.take(pos) + (seq!['.'] + e));
                assert(nf =~= num + (seq!['.'] + e));
                assert forall|j: int| num.len() < j < nf.len() implies nf[j] != '.' by {
                    assert(nf[j] == e[j - num.len() - 1]);
                    assert(e[j - num.len() - 1] == bf[pos + 1 + (j - num.len() - 1)]);
                }
                lemma_rfind_at(nf, '.', nf.len() as int, num.len() as int);
                assert(nf.take(num.len() as int) =~= num);
                assert(nf.skip(num.len() as int + 1) =~= e);
            }
        },
        None => {
            assert(s2 == bf && e2 is None);
            assert(nf =~= num);
            assert forall|j: int| 0 <= j < (seq!['-'] + dec).len() implies (seq!['-'] + dec)[j] != '.' by {
                if j > 0 {
                    assert((seq!['-'] + dec)[j] == dec[j - 1]);
                }
            }
            assert(num =~= bf + (seq!['-'] + dec));
            lemma_rfind_before_free(bf, seq!['-'] + dec, '.', num.len() as int);
        },
    }
    assert forall|j: int| 0 <= j < nf.len() implies nf[j] != '/' by {
        if j < s2.len() {
            assert(nf[j] == bf[j]);
        } else if j == s2.len() {
        } else if j < num.len() {
            assert(nf[j] == dec[j - s2.len() - 1]);
        } else {
            let e = e2->0;
            let pos = s2.len() as int;
            assert(nf[j] == (seq!['.'] + e)[j - num.len()]);
            if j > num.len() {
                assert(e[j - num.len() - 1] == bf[pos + 1 + (j - num.len() - 1)]);
            }
        }
    }
    assert(nf.len() >= 3);
}

/// The file named `g` in the directory `d` (empty for the root): its file name, the stem and
/// extension it reads, and where a plain name put in the same directory goes.
proof fn lemma_file_in_dir(d: Seq<char>, g: Seq<char>, h: Seq<char>)
    requires
        is_plain_dir(d),
        is_plain_name(g),
        is_plain_name(h),
    ensures
        spec_file_part(d + seq!['/'] + g) == g,
        spec_stem_part(g) == split_file_name(g).0,
        spec_dot_ext(d + seq!['/'] + g) == (match split_file_name(g).1 {
            Some(e) => Some(seq!['.'] + e),
            None => None,
        }),
        spec_in_parent(d + seq!['/'] + g, h) == d + seq!['/'] + h,
{
    let p = d + seq!['/'] + g;
    assert forall|j: int| d.len() < j < p.len() implies p[j] != '/' by {
        assert(p[j] == g[j - d.len() - 1]);
    }
    lemma_rfind_at(p, '/', p.len() as int, d.len() as int);
    assert(p.skip(d.len() as int + 1) =~= g);
    assert(p.take(d.len() as int) =~= d);
    lemma_rfind_absent(g, '/', g.len() as int);
    assert(crate::paths::last_component(g) == g);
    assert(std_path_file_name(g) == Some(g));
    assert(std_path_file_name(p) == Some(g));
    if d.len() == 0 {
        assert(std_path_parent(p) == Some(seq!['/']));
        assert(std_path_join(seq!['/'], h) =~= d + seq!['/'] + h);
    } else {
        assert(std_path_parent(p) == Some(d));
        assert(std_path_join(d, h) =~= d + seq!['/'] + h);
    }
}

/// Heap extension `n` of a file locator `t` (a plain file name `f` in a directory `d` that
/// is the root or an absolute path ending in a normal component) carries the number `n`, has
/// the same segment base key and scheme, and its own extension `m` is extension `m` of `t`.
/// The base file name must itself be a plain name: a name such as `-3`, whose stem is all
/// suffix, has none.
pub proof fn lemma_file_extension_roundtrip(t: Seq<char>, d: Seq<char>, f: Seq<char>, n: u16, m: u16)
    requires
        t == url_text("file"@, Seq::empty(), d + seq!['/'] + f),
        d.len() == 0 || d[0] == '/',
        is_plain_dir(d),
        is_plain_name(f),
        is_plain_name(spec_base_file_name(f)),
    ensures
        spec_segment_base_key(t) == d + seq!['/'] + spec_base_file_name(f),
        spec_extension_index(spec_extension(t, n)) == Some(n),
        spec_segment_base_key(spec_extension(t, n)) == spec_segment_base_key(t),
        url_scheme(spec_extension(t, n)) == url_scheme(t),
        spec_extension(spec_extension(t, n), m) == spec_extension(t, m),
{
    let file = "file"@;
    reveal_strlit("file");
    let p = d + seq!['/'] + f;
    let bf = spec_base_file_name(f);
    let nf = spec_numbered_file_name(bf, n);
    let b = d + seq!['/'] + bf;
    let ep = d + seq!['/'] + nf;
    assert(p[0] == '/') by {
        if d.len() > 0 {
            assert(p[0] == d[0]);
        }
    }
    crate::url::lemma_url_parts(file, Seq::empty(), p);
    assert(is_file_text(t));
    // the base path of `t`
    lemma_file_in_dir(d, f, bf);
    assert(spec_strip_suffix_path(p).0 =~= b);
    // the extension's path
    lemma_numbered_split(bf, n);
    lemma_file_in_dir(d, bf, nf);
    assert(spec_extension_path(p, n) =~= ep);
    let e = spec_extension(t, n);
    assert(ep[0] == '/') by {
        if d.len() > 0 {
            assert(ep[0] == d[0]);
        }
    }
    crate::url::lemma_url_parts(file, Seq::empty(), ep);
    assert(is_file_text(e));
    assert(url_path(e) == ep);
    // the extension's number and base path
    lemma_file_in_dir(d, nf, bf);
    lemma_strip_numbered(split_file_name(bf).0, n);
    assert(spec_extension_index(e) == Some(n));
    assert(spec_strip_suffix_path(ep).0 =~= b);
}

} // verus!
