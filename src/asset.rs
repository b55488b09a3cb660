//! Assets: a locator, a mime hint and an attached resource; and the errors of resolution.
use vstd::prelude::*;

use crate::resources::parsed_text;
use crate::resources::DemoResource;
use crate::resources::InertResource;
use crate::resources::Resource;
use crate::scan::chars_of;

verus! {

/// Why an operation on a resource or an asset failed.
#[derive(Debug, PartialEq, Eq)]
pub enum Error {
    /// A resource was rendered, or its data used, before it was parsed.
    ResourceUnloaded,
    /// Fetching an asset failed; the transport's description of the failure.
    HttpError(String),
    /// The content did not fit the resource's grammar (text that is not UTF-8).
    ParseError,
    /// An asset was used before a resource was attached to it.
    MissingResource,
    /// A resource was handed content a second time.
    AlreadyParsed,
}

pub type Result<T> = std::result::Result<T, Error>;

/// A locator, a hint for choosing a parser, and the resource attached to it.
pub struct Asset {
    /// Absolute URL the content is fetched from.
    pub url: String,
    /// Chooses the parser; possibly empty.
    pub mime_hint: String,
    /// The parser and the parsed content, once attached.
    pub data: Option<Resource>,
    /// Fetching or parsing failed and resolution gave this asset up: its
    /// reference is left as it was written.
    pub abandoned: bool,
}

pub open spec fn is_ascii_upper(c: char) -> bool {
    'A' <= c <= 'Z'
}

/// `a` and `b` are the same character up to ASCII case.
pub open spec fn same_ignoring_ascii_case(a: char, b: char) -> bool {
    ||| a == b
    ||| is_ascii_upper(a) && a as u32 + 32 == b as u32
    ||| is_ascii_upper(b) && b as u32 + 32 == a as u32
}

pub open spec fn text_plain() -> Seq<char> {
    seq!['t', 'e', 'x', 't', '/', 'p', 'l', 'a', 'i', 'n']
}

/// The hint names plain text, in any ASCII case.
pub open spec fn selects_text(hint: Seq<char>) -> bool {
    &&& hint.len() == text_plain().len()
    &&& forall|k: int| 0 <= k < hint.len() ==> same_ignoring_ascii_case(#[trigger] hint[k], text_plain()[k])
}

fn same_char_ignoring_ascii_case(a: char, b: char) -> (r: bool)
    ensures
        r == same_ignoring_ascii_case(a, b),
{
    let x = a as u32;
    let y = b as u32;
    x == y || ('A' <= a && a <= 'Z' && x + 32 == y) || ('A' <= b && b <= 'Z' && y + 32 == x)
}

fn is_text_hint(hint: &str) -> (r: bool)
    ensures
        r == selects_text(hint@),
{
    let h = chars_of(hint);
    let t = vec!['t', 'e', 'x', 't', '/', 'p', 'l', 'a', 'i', 'n'];
    assert(t@ == text_plain());
    if h.len() != t.len() {
        return false;
    }
    let mut k: usize = 0;
    while k < h.len()
        invariant
            h@ == hint@,
            t@ == text_plain(),
            h@.len() == t@.len(),
            k <= h@.len(),
            forall|j: int| 0 <= j < k ==> same_ignoring_ascii_case(#[trigger] h@[j], t@[j]),
        decreases h@.len() - k,
    {
        if !same_char_ignoring_ascii_case(h[k], t[k]) {
            return false;
        }
        k = k + 1;
    }
    true
}

/// The resource chosen for an asset with this hint and locator: a fresh
/// text resource on that locator, or a fresh pass-through one.
pub open spec fn is_chosen_resource(r: Resource, hint: Seq<char>, url: String) -> bool {
    if selects_text(hint) {
        r matches Resource::Demo(d) && d.data is None && d.url == url && d.resources@.len() == 0
            && d.first_child == 0
    } else {
        r matches Resource::Inert(i) && i.data is None
    }
}

impl Asset {
    /// A new asset with no resource attached.
    pub fn new(url: String, mime_hint: String) -> (r: Asset)
        ensures
            r.url == url,
            r.mime_hint == mime_hint,
            r.data is None,
            !r.abandoned,
    {
        Asset { url, mime_hint, data: None, abandoned: false }
    }

    /// Attach a resource chosen by the mime hint (a text resource for
    /// `text/plain` in any ASCII case, a pass-through one otherwise), unless
    /// one is attached already.
    pub fn auto_select_resource_type(&mut self) -> (r: &mut Resource)
        ensures
            match old(self).data {
                Some(x) => *r == x,
                None => is_chosen_resource(*r, old(self).mime_hint@, old(self).url),
            },
            final(self).data == Some(*final(r)),
            final(self).url == old(self).url,
            final(self).mime_hint == old(self).mime_hint,
            final(self).abandoned == old(self).abandoned,
    {
        let chosen = if is_text_hint(self.mime_hint.as_str()) {
            Resource::Demo(DemoResource::new(self.url.clone()))
        } else {
            Resource::Inert(InertResource::new())
        };
        self.data.get_or_insert(chosen)
    }

    /// Hand the outcome of fetching this asset's locator to its resource.
    ///
    /// Fails with `MissingResource` when no resource is attached; does
    /// nothing when the resource already holds content; otherwise passes on
    /// a transport failure as `HttpError`, or parses the fetched bytes.
    pub fn download(&mut self, fetched: std::result::Result<Vec<u8>, String>) -> (r: Result<()>)
        requires
            old(self).data matches Some(res) ==> res.wf(),
        ensures
            final(self).data matches Some(res) ==> res.wf(),
            final(self).url == old(self).url,
            final(self).mime_hint == old(self).mime_hint,
            final(self).abandoned == old(self).abandoned,
            old(self).data is None ==> r == Err::<(), Error>(Error::MissingResource) && *final(self)
                == *old(self),
            old(self).data matches Some(res) && res.spec_has_data() ==> r is Ok && *final(self)
                == *old(self),
            match old(self).data {
                Some(res) if !res.spec_has_data() => match fetched {
                    Err(msg) => r == Err::<(), Error>(Error::HttpError(msg)) && *final(self)
                        == *old(self),
                    Ok(bytes) => match res {
                        Resource::Inert(_) => r is Ok && final(self).data == Some(
                            Resource::Inert(InertResource { data: Some(bytes) }),
                        ),
                        Resource::Demo(d) => if vstd::utf8::valid_utf8(bytes@) {
                            &&& r is Ok
                            &&& final(self).data matches Some(Resource::Demo(e)) && parsed_text(
                                d,
                                e,
                                bytes@,
                            )
                        } else {
                            r == Err::<(), Error>(Error::ParseError) && *final(self) == *old(self)
                        },
                    },
                },
                _ => true,
            },
    {
        match &mut self.data {
            None => Err(Error::MissingResource),
            Some(res) => {
                if res.has_data() {
                    return Ok(());
                }
                match fetched {
                    Err(msg) => Err(Error::HttpError(msg)),
                    Ok(bytes) => res.parse(bytes),
                }
            },
        }
    }
}

} // verus!
