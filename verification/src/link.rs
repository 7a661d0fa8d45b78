//! URLs, parsed and serialized by the `url` crate.
//!
//! A [`Link`] keeps the parsed `url::Url` together with its serialization,
//! which is its view: the `url` crate orders and compares URLs by that
//! serialization, and every reading below is a function of it.
use vstd::prelude::*;

verus! {

#[verifier::external_type_specification]
#[verifier::external_body]
pub struct ExOutsideUrl(::url::Url);

/// What `url::Url::parse` gives for `raw`: the serialization of the parsed
/// URL, or the text of the parse error.
pub uninterp spec fn url_parse_outcome(raw: Seq<char>) -> Result<Seq<char>, Seq<char>>;

/// `Link::host_str` of the URL with this serialization.
pub uninterp spec fn url_host_of(serialization: Seq<char>) -> Option<Seq<char>>;

/// `Link::path` of the URL with this serialization.
pub uninterp spec fn url_path_of(serialization: Seq<char>) -> Seq<char>;

/// `Link::scheme` of the URL with this serialization: what precedes its
/// first `:`. A serialization always holds one, right after the scheme,
/// whose characters are letters, digits, `+`, `-` and `.`.
pub open spec fn url_scheme_of(serialization: Seq<char>) -> Seq<char> {
    if crate::text::has_char(serialization, ':') {
        serialization.take(choose|i: int| crate::text::first_index(serialization, ':', i))
    } else {
        serialization
    }
}

/// `Link::port` of the URL with this serialization: the port written in it,
/// if any.
pub uninterp spec fn url_port_of(serialization: Seq<char>) -> Option<u16>;

/// `Link::fragment` of the URL with this serialization.
pub uninterp spec fn url_fragment_of(serialization: Seq<char>) -> Option<Seq<char>>;

/// The decoded `Link::query_pairs` of the URL with this serialization.
pub uninterp spec fn url_query_pairs_of(serialization: Seq<char>) -> Seq<(Seq<char>, Seq<char>)>;

/// The serialization after `query_pairs_mut().clear().extend_pairs(pairs)`.
pub uninterp spec fn url_with_query_pairs(
    serialization: Seq<char>,
    pairs: Seq<(Seq<char>, Seq<char>)>,
) -> Seq<char>;

pub open spec fn opt_text(o: Option<String>) -> Option<Seq<char>> {
    match o {
        Some(s) => Some(s@),
        None => None,
    }
}

pub open spec fn pairs_view(p: Seq<(String, String)>) -> Seq<(Seq<char>, Seq<char>)> {
    p.map_values(|kv: (String, String)| (kv.0@, kv.1@))
}

/// A parsed absolute URL.
#[derive(Debug)]
pub struct Link {
    inner: ::url::Url,
    text: String,
}

impl View for Link {
    type V = Seq<char>;

    closed spec fn view(&self) -> Seq<char> {
        self.text@
    }
}

/// Calls `url::Url::parse`; on success keeps the URL with its serialization
/// (`as_str`), on failure the error's text (`to_string`).
#[verifier::external_body]
fn parse_outside(raw: &str) -> (res: Result<Link, String>)
    ensures
        match res {
            Ok(u) => url_parse_outcome(raw@) == Ok::<Seq<char>, Seq<char>>(u@),
            Err(m) => url_parse_outcome(raw@) == Err::<Seq<char>, Seq<char>>(m@),
        },
{
    match ::url::Url::parse(raw) {
        Ok(inner) => Ok(Link { text: inner.as_str().to_string(), inner }),
        Err(e) => Err(e.to_string()),
    }
}

/// Calls `url::Url::host_str`.
#[verifier::external_body]
fn host_outside(u: &Link) -> (res: Option<String>)
    ensures
        opt_text(res) == url_host_of(u@),
{
    u.inner.host_str().map(|h| h.to_string())
}

/// Calls `url::Url::path`.
#[verifier::external_body]
fn path_outside(u: &Link) -> (res: String)
    ensures
        res@ == url_path_of(u@),
{
    u.inner.path().to_string()
}

/// Calls `url::Url::port`.
#[verifier::external_body]
fn port_outside(u: &Link) -> (res: Option<u16>)
    ensures
        res == url_port_of(u@),
{
    u.inner.port()
}

/// Calls `url::Url::fragment`.
#[verifier::external_body]
fn fragment_outside(u: &Link) -> (res: Option<String>)
    ensures
        opt_text(res) == url_fragment_of(u@),
{
    u.inner.fragment().map(|f| f.to_string())
}

/// Calls `url::Url::scheme`, the serialization up to the `:` after the scheme.
#[verifier::external_body]
fn scheme_outside(u: &Link) -> (res: String)
    ensures
        res@ == url_scheme_of(u@),
{
    u.inner.scheme().to_string()
}

/// Calls `url::Url::query_pairs`, owning each decoded pair.
#[verifier::external_body]
fn query_pairs_outside(u: &Link) -> (res: Vec<(String, String)>)
    ensures
        pairs_view(res@) == url_query_pairs_of(u@),
{
    u.inner.query_pairs().map(|(k, v)| (k.into_owned(), v.into_owned())).collect()
}

/// Calls `query_pairs_mut().clear().extend_pairs(..)` on a copy of `u`. The
/// query is replaced by the form-encoded pairs and the rest of the URL is
/// kept: the pairs read back are those written (`form_urlencoded::parse`
/// undoes `byte_serialize`); scheme, host, port, path and fragment stay (the
/// fragment is taken off and put back); and writing pairs again gives what
/// writing them on `u` gives.
#[verifier::external_body]
fn with_query_pairs_outside(u: &Link, pairs: &Vec<(String, String)>) -> (res: Link)
    ensures
        res@ == url_with_query_pairs(u@, pairs_view(pairs@)),
        url_query_pairs_of(res@) == pairs_view(pairs@),
        url_scheme_of(res@) == url_scheme_of(u@),
        url_host_of(res@) == url_host_of(u@),
        url_port_of(res@) == url_port_of(u@),
        url_path_of(res@) == url_path_of(u@),
        url_fragment_of(res@) == url_fragment_of(u@),
        forall|q: Seq<(Seq<char>, Seq<char>)>|
            #[trigger] url_with_query_pairs(res@, q) == url_with_query_pairs(u@, q),
{
    let mut inner = u.inner.clone();
    inner.query_pairs_mut().clear().extend_pairs(pairs.iter());
    Link { text: inner.as_str().to_string(), inner }
}

/// Calls `url::Url::clone`.
#[verifier::external_body]
fn clone_outside(u: &Link) -> (res: Link)
    ensures
        res@ == u@,
{
    Link { inner: u.inner.clone(), text: u.text.clone() }
}

impl Link {
    /// Parses an absolute URL.
    pub fn parse(raw: &str) -> (res: Result<Link, String>)
        ensures
            match res {
                Ok(u) => url_parse_outcome(raw@) == Ok::<Seq<char>, Seq<char>>(u@),
                Err(m) => url_parse_outcome(raw@) == Err::<Seq<char>, Seq<char>>(m@),
            },
    {
        parse_outside(raw)
    }

    /// The serialization.
    pub fn as_str(&self) -> (s: &str)
        ensures
            s@ == self@,
    {
        self.text.as_str()
    }

    pub fn host_str(&self) -> (h: Option<String>)
        ensures
            opt_text(h) == url_host_of(self@),
    {
        host_outside(self)
    }

    pub fn path(&self) -> (p: String)
        ensures
            p@ == url_path_of(self@),
    {
        path_outside(self)
    }

    pub fn scheme(&self) -> (s: String)
        ensures
            s@ == url_scheme_of(self@),
    {
        scheme_outside(self)
    }

    /// The port written in the link, if any.
    pub fn port(&self) -> (p: Option<u16>)
        ensures
            p == url_port_of(self@),
    {
        port_outside(self)
    }

    /// The fragment, without its `#`, if any.
    pub fn fragment(&self) -> (f: Option<String>)
        ensures
            opt_text(f) == url_fragment_of(self@),
    {
        fragment_outside(self)
    }

    pub fn query_pairs(&self) -> (p: Vec<(String, String)>)
        ensures
            pairs_view(p@) == url_query_pairs_of(self@),
    {
        query_pairs_outside(self)
    }

    /// This URL with its query replaced by the given pairs, form-encoded; the
    /// rest of the URL is kept.
    pub fn with_query_pairs(&self, pairs: &Vec<(String, String)>) -> (u: Link)
        ensures
            u@ == url_with_query_pairs(self@, pairs_view(pairs@)),
            url_query_pairs_of(u@) == pairs_view(pairs@),
            url_scheme_of(u@) == url_scheme_of(self@),
            url_host_of(u@) == url_host_of(self@),
            url_port_of(u@) == url_port_of(self@),
            url_path_of(u@) == url_path_of(self@),
            url_fragment_of(u@) == url_fragment_of(self@),
            forall|q: Seq<(Seq<char>, Seq<char>)>|
                #[trigger] url_with_query_pairs(u@, q) == url_with_query_pairs(self@, q),
    {
        with_query_pairs_outside(self, pairs)
    }

    pub fn duplicate(&self) -> (u: Link)
        ensures
            u@ == self@,
    {
        clone_outside(self)
    }
}

impl Clone for Link {
    fn clone(&self) -> (u: Link)
        ensures
            u@ == self@,
    {
        clone_outside(self)
    }
}

} // verus!
