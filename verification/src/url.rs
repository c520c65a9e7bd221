//! Storage urls: the text `scheme://host/path`, read back into its parts.

use crate::chars::{chars_of, find_char, find_char_from};
use vstd::prelude::*;
use vstd::string::*;

verus! {

/// `://` starts at index `i` of `s`.
pub open spec fn is_sep_at(s: Seq<char>, i: int) -> bool {
    0 <= i && i + 3 <= s.len() && s[i] == ':' && s[i + 1] == '/' && s[i + 2] == '/'
}

/// Index of the first `://` in `s` at or after `i`.
pub open spec fn find_sep_from(s: Seq<char>, i: int) -> Option<int>
    decreases s.len() - i,
{
    if i < 0 || i + 3 > s.len() {
        None
    } else if is_sep_at(s, i) {
        Some(i)
    } else {
        find_sep_from(s, i + 1)
    }
}

/// What the first `://` at or after `i` is: a separator, with none between `i` and it.
pub proof fn lemma_find_sep_found(s: Seq<char>, i: int)
    ensures
        find_sep_from(s, i) matches Some(k) ==> i <= k && k + 3 <= s.len() && is_sep_at(s, k)
            && forall|j: int| i <= j < k ==> !is_sep_at(s, j),
    decreases s.len() - i,
{
    if i >= 0 && i + 3 <= s.len() && !is_sep_at(s, i) {
        lemma_find_sep_found(s, i + 1);
    }
}

/// The separator `://`.
pub open spec fn sep_chars() -> Seq<char> {
    seq![':', '/', '/']
}

/// Url text: it holds a `://` that ends its scheme.
pub open spec fn is_url_text(t: Seq<char>) -> bool {
    find_sep_from(t, 0) is Some
}

/// Where the scheme of url text `t` ends.
pub open spec fn sep_index(t: Seq<char>) -> int {
    match find_sep_from(t, 0) {
        Some(i) => i,
        None => 0,
    }
}

/// The scheme: everything before the first `://`.
pub open spec fn url_scheme(t: Seq<char>) -> Seq<char> {
    t.take(sep_index(t))
}

/// Everything after the first `://`.
pub open spec fn url_rest(t: Seq<char>) -> Seq<char> {
    t.skip(sep_index(t) + 3)
}

pub open spec fn url_host_len(t: Seq<char>) -> int {
    match find_char_from(url_rest(t), '/', 0) {
        Some(j) => j,
        None => url_rest(t).len() as int,
    }
}

/// The host: after `://`, up to the next `/`.
pub open spec fn url_host(t: Seq<char>) -> Seq<char> {
    url_rest(t).take(url_host_len(t))
}

/// The path: from the `/` after the host to the end (empty when there is none).
pub open spec fn url_path(t: Seq<char>) -> Seq<char> {
    url_rest(t).skip(url_host_len(t))
}

/// The text of the url with the given parts.
pub open spec fn url_text(scheme: Seq<char>, host: Seq<char>, path: Seq<char>) -> Seq<char> {
    scheme + sep_chars() + host + path
}

/// `scheme + "://" + ...` has its first `://` right after `scheme`, when `scheme` itself
/// holds none that ends inside it.
pub proof fn lemma_find_sep_after_scheme(t: Seq<char>, scheme: Seq<char>, i: int)
    requires
        t.len() >= scheme.len() as int + 3,
        t.take(scheme.len() as int + 3) == scheme + sep_chars(),
        0 <= i <= scheme.len(),
        forall|j: int| i <= j < scheme.len() ==> !is_sep_at(t, j),
    ensures
        find_sep_from(t, i) == Some(scheme.len() as int),
    decreases scheme.len() - i,
{
    assert(t[scheme.len() as int] == t.take(scheme.len() as int + 3)[scheme.len() as int]);
    assert(t[scheme.len() as int + 1] == t.take(scheme.len() as int + 3)[scheme.len() as int + 1]);
    assert(t[scheme.len() as int + 2] == t.take(scheme.len() as int + 3)[scheme.len() as int + 2]);
    if i < scheme.len() {
        lemma_find_sep_after_scheme(t, scheme, i + 1);
    }
}

/// Two texts that agree on their first `n` characters find the same first `://` before `n - 2`.
pub proof fn lemma_find_sep_prefix(a: Seq<char>, b: Seq<char>, n: int, i: int)
    requires
        0 <= i,
        n <= a.len(),
        n <= b.len(),
        a.take(n) == b.take(n),
        find_sep_from(a, i) matches Some(k) && k + 3 <= n,
    ensures
        find_sep_from(b, i) == find_sep_from(a, i),
    decreases a.len() - i,
{
    lemma_find_sep_found(a, i);
    assert(i + 3 <= n);
    assert(a[i] == a.take(n)[i] && b[i] == b.take(n)[i]);
    assert(a[i + 1] == a.take(n)[i + 1] && b[i + 1] == b.take(n)[i + 1]);
    assert(a[i + 2] == a.take(n)[i + 2] && b[i + 2] == b.take(n)[i + 2]);
    if !is_sep_at(a, i) {
        lemma_find_sep_prefix(a, b, n, i + 1);
    }
}

/// A url built from a scheme without `:`, a host without `/` and a path that is empty or
/// starts with `/` reads back as those three parts.
pub proof fn lemma_url_parts(scheme: Seq<char>, host: Seq<char>, path: Seq<char>)
    requires
        forall|j: int| 0 <= j < scheme.len() ==> scheme[j] != ':',
        forall|j: int| 0 <= j < host.len() ==> host[j] != '/',
        path.len() > 0 ==> path[0] == '/',
    ensures
        is_url_text(url_text(scheme, host, path)),
        url_scheme(url_text(scheme, host, path)) == scheme,
        url_host(url_text(scheme, host, path)) == host,
        url_path(url_text(scheme, host, path)) == path,
{
    let t = url_text(scheme, host, path);
    assert(t.take(scheme.len() as int + 3) =~= scheme + sep_chars());
    assert forall|j: int| 0 <= j < scheme.len() implies !is_sep_at(t, j) by {
        assert(t[j] == scheme[j]);
    }
    lemma_find_sep_after_scheme(t, scheme, 0);
    assert(url_scheme(t) =~= scheme);
    assert(url_rest(t) =~= host + path);
    crate::chars::lemma_find_char_concat(host, path, '/', 0);
    assert(url_host(t) =~= host);
    assert(url_path(t) =~= path);
}

/// Index of the first `://` in `s`.
fn find_sep(s: &[char]) -> (r: Option<usize>)
    ensures
        r matches Some(i) ==> find_sep_from(s@, 0) == Some(i as int),
        r is None ==> find_sep_from(s@, 0) is None,
{
    let n = s.len();
    if n < 3 {
        return None;
    }
    let mut i: usize = 0;
    while i < n - 2
        invariant
            n == s@.len(),
            n >= 3,
            find_sep_from(s@, 0) == find_sep_from(s@, i as int),
        decreases n - i,
    {
        if s[i] == ':' && s[i + 1] == '/' && s[i + 2] == '/' {
            return Some(i);
        }
        i = i + 1;
    }
    None
}

/// Whether two character sequences are equal.
pub fn chars_eq(a: &[char], b: &[char]) -> (r: bool)
    ensures
        r == (a@ == b@),
{
    if a.len() != b.len() {
        return false;
    }
    let n = a.len();
    let mut i: usize = 0;
    while i < n
        invariant
            n == a@.len(),
            n == b@.len(),
            i <= n,
            forall|k: int| 0 <= k < i ==> a@[k] == b@[k],
        decreases n - i,
    {
        if a[i] != b[i] {
            return false;
        }
        i = i + 1;
    }
    assert(a@ =~= b@);
    true
}

/// Whether the text of `s` is `lit`.
pub fn str_is(s: &str, lit: &str) -> (r: bool)
    ensures
        r == (s@ == lit@),
{
    chars_eq(chars_of(s).as_slice(), chars_of(lit).as_slice())
}

/// A url given by its text `scheme://host/path`.
#[derive(Debug)]
pub struct Url {
    text: String,
}

/// Text that holds no `://`.
#[derive(Debug, Clone, Copy, PartialEq, Eq)]
pub enum UrlError {
    MissingScheme,
}

impl View for Url {
    type V = Seq<char>;

    closed spec fn view(&self) -> Seq<char> {
        self.text@
    }
}

impl Url {
    #[verifier::type_invariant]
    spec fn holds_scheme(self) -> bool {
        is_url_text(self.text@)
    }

    /// The url whose text is `s`; refused when `s` holds no `://`.
    pub fn parse(s: &str) -> (r: Result<Url, UrlError>)
        ensures
            r is Ok <==> is_url_text(s@),
            r matches Ok(u) ==> u@ == s@,
            r matches Err(e) ==> e == UrlError::MissingScheme,
    {
        let cs = chars_of(s);
        match find_sep(cs.as_slice()) {
            Some(_) => Ok(Url { text: s.to_owned() }),
            None => Err(UrlError::MissingScheme),
        }
    }

    /// An empty builder.
    pub fn builder() -> (r: UrlBuilder)
        ensures
            r.scheme@ == Seq::<char>::empty(),
            r.host@ == Seq::<char>::empty(),
            r.path@ == Seq::<char>::empty(),
    {
        UrlBuilder { scheme: String::new(), host: String::new(), path: String::new() }
    }

    /// Url text always holds its `://`.
    pub fn well_formed(&self) -> (r: bool)
        ensures
            r,
            is_url_text(self@),
    {
        proof {
            use_type_invariant(self);
        }
        true
    }

    pub fn as_str(&self) -> (r: &str)
        ensures
            r@ == self@,
    {
        self.text.as_str()
    }

    fn parts(&self) -> (r: (usize, usize))
        ensures
            is_url_text(self@),
            r.0 == sep_index(self@),
            r.1 == sep_index(self@) + 3 + url_host_len(self@),
            r.0 + 3 <= r.1 <= self@.len(),
    {
        proof {
            use_type_invariant(self);
            lemma_find_sep_found(self@, 0);
        }
        let cs = chars_of(self.text.as_str());
        let i = match find_sep(cs.as_slice()) {
            Some(i) => i,
            None => {
                assert(false);
                0
            },
        };
        let rest: Vec<char> = slice_from(cs.as_slice(), i + 3);
        proof {
            crate::chars::lemma_find_char_found(rest@, '/', 0);
        }
        let h = match find_char(rest.as_slice(), '/', 0) {
            Some(j) => j,
            None => rest.len(),
        };
        (i, i + 3 + h)
    }

    /// The scheme, before the first `://`.
    pub fn scheme(&self) -> (r: &str)
        ensures
            r@ == url_scheme(self@),
    {
        let (i, _) = self.parts();
        self.text.as_str().substring_char(0, i)
    }

    /// The host, after `://` up to the next `/`.
    pub fn host(&self) -> (r: &str)
        ensures
            r@ == url_host(self@),
    {
        let (i, j) = self.parts();
        let r = self.text.as_str().substring_char(i + 3, j);
        assert(r@ =~= url_host(self@));
        r
    }

    /// The path, from the `/` after the host to the end.
    pub fn path(&self) -> (r: &str)
        ensures
            r@ == url_path(self@),
    {
        let (_, j) = self.parts();
        let n = self.text.as_str().unicode_len();
        let r = self.text.as_str().substring_char(j, n);
        assert(r@ =~= url_path(self@));
        r
    }

    /// The scheme is `file`.
    pub fn is_file(&self) -> (r: bool)
        ensures
            r == (url_scheme(self@) == "file"@),
    {
        str_is(self.scheme(), "file")
    }
}

impl Clone for Url {
    fn clone(&self) -> (r: Self)
        ensures
            r@ == self@,
    {
        proof {
            use_type_invariant(self);
        }
        Url { text: self.text.clone() }
    }
}

/// `s[from..]` as a vector.
fn slice_from(s: &[char], from: usize) -> (r: Vec<char>)
    requires
        from <= s@.len(),
    ensures
        r@ == s@.skip(from as int),
{
    let mut v: Vec<char> = Vec::new();
    let n = s.len();
    let mut i: usize = from;
    while i < n
        invariant
            n == s@.len(),
            from <= i <= n,
            v@ == s@.subrange(from as int, i as int),
        decreases n - i,
    {
        v.push(s[i]);
        i = i + 1;
        assert(v@ =~= s@.subrange(from as int, i as int));
    }
    assert(v@ =~= s@.skip(from as int));
    v
}

/// Parts of a url under construction.
pub struct UrlBuilder {
    pub scheme: String,
    pub host: String,
    pub path: String,
}

impl UrlBuilder {
    pub fn scheme(self, scheme: &str) -> (r: Self)
        ensures
            r.scheme@ == scheme@,
            r.host@ == self.host@,
            r.path@ == self.path@,
    {
        UrlBuilder { scheme: scheme.to_owned(), host: self.host, path: self.path }
    }

    pub fn host(self, host: &str) -> (r: Self)
        ensures
            r.scheme@ == self.scheme@,
            r.host@ == host@,
            r.path@ == self.path@,
    {
        UrlBuilder { scheme: self.scheme, host: host.to_owned(), path: self.path }
    }

    pub fn path(self, path: &str) -> (r: Self)
        ensures
            r.scheme@ == self.scheme@,
            r.host@ == self.host@,
            r.path@ == path@,
    {
        UrlBuilder { scheme: self.scheme, host: self.host, path: path.to_owned() }
    }

    /// The url `scheme://host` followed by the path.
    pub fn build(self) -> (r: Url)
        ensures
            r@ == url_text(self.scheme@, self.host@, self.path@),
    {
        let mut text = self.scheme;
        let ghost scheme = text@;
        text.append("://");
        proof {
            reveal_strlit("://");
            assert(text@ =~= scheme + sep_chars());
            let t = text@;
            assert(t.take(scheme.len() as int + 3) =~= scheme + sep_chars());
        }
        let ghost t0 = text@;
        text.append(self.host.as_str());
        text.append(self.path.as_str());
        proof {
            let t = text@;
            assert(t =~= url_text(scheme, self.host@, self.path@));
            assert(t.take(scheme.len() as int + 3) =~= t0);
            lemma_scheme_sep(t, scheme);
        }
        Url { text }
    }
}

/// Text made of `scheme + "://" + ...` is url text.
proof fn lemma_scheme_sep(t: Seq<char>, scheme: Seq<char>)
    requires
        t.len() >= scheme.len() as int + 3,
        t.take(scheme.len() as int + 3) == scheme + sep_chars(),
    ensures
        is_url_text(t),
        sep_index(t) <= scheme.len(),
{
    let n = scheme.len() as int;
    assert(t[n] == t.take(n + 3)[n]);
    assert(t[n + 1] == t.take(n + 3)[n + 1]);
    assert(t[n + 2] == t.take(n + 3)[n + 2]);
    lemma_first_sep_exists(t, 0, n);
}

/// When `://` starts at `k >= i`, some first one is found at or after `i`, no later than `k`.
proof fn lemma_first_sep_exists(t: Seq<char>, i: int, k: int)
    requires
        0 <= i <= k,
        is_sep_at(t, k),
    ensures
        find_sep_from(t, i) matches Some(j) && i <= j <= k,
    decreases k - i,
{
    if !is_sep_at(t, i) {
        lemma_first_sep_exists(t, i + 1, k);
    }
}

} // verus!
