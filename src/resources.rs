//! The resources that can be attached to an asset: an opaque pass-through
//! leaf, and a text resource whose quoted references become child assets.
use vstd::prelude::*;

use crate::asset::Asset;
use crate::asset::Error;
use crate::asset::Result;
use crate::scan::chars_of;
use crate::scan::find_tokens;
use crate::scan::lemma_tokens_ordered;
use crate::scan::span_views;
use crate::scan::spans_ordered;
use crate::scan::tokens;
use crate::util::decode_utf8_text;

verus! {

/// The absolute URL that `reference` denotes relative to `base`, or `None`
/// when either does not parse.
pub uninterp spec fn joined_locator(base: Seq<char>, reference: Seq<char>) -> Option<Seq<char>>;

/// Relies on url::Url::parse and url::Url::join (as re-exported by reqwest):
/// the serialization of `reference` resolved against `base`.
#[verifier::external_body]
fn join_locator(base: &str, reference: &str) -> (r: Option<String>)
    ensures
        r matches Some(u) ==> joined_locator(base@, reference@) == Some(u@),
        r is None ==> joined_locator(base@, reference@) is None,
{
    match reqwest::Url::parse(base) {
        Ok(b) => match b.join(reference) {
            Ok(u) => Some(String::from(u)),
            Err(_) => None,
        },
        Err(_) => None,
    }
}

/// A reference ending in `.txt` is fetched as text; any other gets no hint.
pub open spec fn hint_for(token: Seq<char>) -> Seq<char> {
    if token.len() >= 4 && token.subrange(token.len() - 4, token.len() as int) == seq![
        '.',
        't',
        'x',
        't',
    ] {
        "text/plain"@
    } else {
        Seq::empty()
    }
}

/// The references of `text` that resolve against `base`, in order:
/// `(start, end, locator, mime hint)` for each token span in `toks`.
pub open spec fn discovered(text: Seq<char>, base: Seq<char>, toks: Seq<(int, int)>) -> Seq<
    (int, int, Seq<char>, Seq<char>),
>
    decreases toks.len(),
{
    if toks.len() == 0 {
        Seq::empty()
    } else {
        let prev = discovered(text, base, toks.drop_last());
        let t = toks.last();
        let token = text.subrange(t.0, t.1);
        match joined_locator(base, token) {
            Some(u) => prev.push((t.0, t.1, u, hint_for(token))),
            None => prev,
        }
    }
}

proof fn lemma_discovered_all(text: Seq<char>, base: Seq<char>, toks: Seq<(int, int)>)
    requires
        forall|k: int|
            0 <= k < toks.len() ==> (#[trigger] joined_locator(
                base,
                text.subrange(toks[k].0, toks[k].1),
            )) is Some,
    ensures
        discovered(text, base, toks).len() == toks.len(),
        forall|k: int|
            0 <= k < toks.len() ==> {
                let token = text.subrange(toks[k].0, toks[k].1);
                #[trigger] discovered(text, base, toks)[k] == (
                    toks[k].0,
                    toks[k].1,
                    joined_locator(base, token)->0,
                    hint_for(token),
                )
            },
    decreases toks.len(),
{
    if toks.len() > 0 {
        let prefix = toks.drop_last();
        assert forall|k: int| 0 <= k < prefix.len() implies (#[trigger] joined_locator(
            base,
            text.subrange(prefix[k].0, prefix[k].1),
        )) is Some by {
            assert(prefix[k] == toks[k]);
        }
        lemma_discovered_all(text, base, prefix);
        let last = toks.len() - 1;
        assert(joined_locator(base, text.subrange(toks[last].0, toks[last].1)) is Some);
        assert forall|k: int| 0 <= k < toks.len() implies {
            let token = text.subrange(toks[k].0, toks[k].1);
            #[trigger] discovered(text, base, toks)[k] == (
                toks[k].0,
                toks[k].1,
                joined_locator(base, token)->0,
                hint_for(token),
            )
        } by {
            if k < last {
                assert(prefix[k] == toks[k]);
            }
        }
    }
}

/// When every quoted reference of `text` resolves, each of them, duplicates
/// included, is recorded once, in the order it appears.
pub proof fn lemma_every_resolvable_reference_recorded(text: Seq<char>, base: Seq<char>)
    requires
        forall|k: int|
            0 <= k < tokens(text).len() ==> (#[trigger] joined_locator(
                base,
                text.subrange(tokens(text)[k].0, tokens(text)[k].1),
            )) is Some,
    ensures
        discovered(text, base, tokens(text)).len() == tokens(text).len(),
        forall|k: int|
            0 <= k < tokens(text).len() ==> {
                let t = tokens(text)[k];
                let token = text.subrange(t.0, t.1);
                #[trigger] discovered(text, base, tokens(text))[k] == (
                    t.0,
                    t.1,
                    joined_locator(base, token)->0,
                    hint_for(token),
                )
            },
{
    lemma_discovered_all(text, base, tokens(text));
}

/// A reference found in text, with the child asset it stands for.
pub struct Link {
    /// Character position where the reference starts (after its quote).
    pub start: usize,
    /// Character position just past the reference (at its closing quote).
    pub end: usize,
    /// The reference resolved against the resource's own locator.
    pub url: String,
    /// Mime hint for the child asset.
    pub mime_hint: String,
}

pub open spec fn link_views(v: Seq<Link>) -> Seq<(int, int, Seq<char>, Seq<char>)> {
    v.map_values(|l: Link| (l.start as int, l.end as int, l.url@, l.mime_hint@))
}

pub open spec fn link_spans(v: Seq<Link>) -> Seq<(int, int)> {
    v.map_values(|l: Link| (l.start as int, l.end as int))
}

pub open spec fn end_before(spans: Seq<(int, int)>, k: int) -> int {
    if k <= 0 {
        0
    } else {
        spans[k - 1].1
    }
}

/// What stands in place of `span`: the substitute, or the text as written.
pub open spec fn replacement(text: Seq<char>, span: (int, int), sub: Option<Seq<char>>) -> Seq<
    char,
> {
    match sub {
        Some(r) => r,
        None => text.subrange(span.0, span.1),
    }
}

/// `text` up to the end of span `k - 1`, each span replaced.
pub open spec fn splice_prefix(
    text: Seq<char>,
    spans: Seq<(int, int)>,
    subs: Seq<Option<Seq<char>>>,
    k: int,
) -> Seq<char>
    decreases k,
{
    if k <= 0 {
        Seq::empty()
    } else {
        splice_prefix(text, spans, subs, k - 1) + text.subrange(end_before(spans, k - 1), spans[k
            - 1].0) + replacement(text, spans[k - 1], subs[k - 1])
    }
}

/// `text` with each span replaced by its substitute (or kept where there is none).
pub open spec fn splice(text: Seq<char>, spans: Seq<(int, int)>, subs: Seq<Option<Seq<char>>>) -> Seq<
    char,
> {
    splice_prefix(text, spans, subs, spans.len() as int) + text.subrange(
        end_before(spans, spans.len() as int),
        text.len() as int,
    )
}

pub open spec fn substitute_views(v: Seq<Option<String>>) -> Seq<Option<Seq<char>>> {
    v.map_values(|o: Option<String>| match o {
        Some(s) => Some(s@),
        None => None,
    })
}

/// A leaf resource: content kept as fetched, no children.
pub struct InertResource {
    pub data: Option<Vec<u8>>,
}

impl InertResource {
    pub fn new() -> (r: InertResource)
        ensures
            r.data is None,
    {
        InertResource { data: None }
    }

    pub fn has_data(&self) -> (r: bool)
        ensures
            r == self.data is Some,
    {
        self.data.is_some()
    }

    /// Keep `bytes` as they are; content is taken only once.
    pub fn parse(&mut self, bytes: Vec<u8>) -> (r: Result<()>)
        ensures
            old(self).data is Some ==> r == Err::<(), Error>(Error::AlreadyParsed) && *final(self)
                == *old(self),
            old(self).data is None ==> r is Ok && final(self).data == Some(bytes),
    {
        if self.data.is_some() {
            return Err(Error::AlreadyParsed);
        }
        self.data = Some(bytes);
        Ok(())
    }

    /// A leaf needs no other asset.
    pub fn needed_assets(&self) -> (r: Vec<Asset>)
        ensures
            r@.len() == 0,
    {
        Vec::new()
    }

    /// The content exactly as it was parsed.
    pub fn render(&self) -> (r: Result<Vec<u8>>)
        ensures
            self.data matches Some(b) ==> r matches Ok(o) && o@ == b@,
            self.data is None ==> r == Err::<Vec<u8>, Error>(Error::ResourceUnloaded),
    {
        match &self.data {
            Some(b) => {
                let mut out: Vec<u8> = Vec::new();
                let mut i: usize = 0;
                while i < b.len()
                    invariant
                        i <= b@.len(),
                        out@ == b@.subrange(0, i as int),
                    decreases b@.len() - i,
                {
                    out.push(b[i]);
                    i = i + 1;
                    assert(out@ =~= b@.subrange(0, i as int));
                }
                assert(out@ =~= b@);
                Ok(out)
            },
            None => Err(Error::ResourceUnloaded),
        }
    }
}

fn ends_with_txt(chars: &Vec<char>, start: usize, end: usize) -> (r: bool)
    requires
        start <= end <= chars@.len(),
    ensures
        r == (hint_for(chars@.subrange(start as int, end as int)) == "text/plain"@),
{
    let ghost token = chars@.subrange(start as int, end as int);
    let r = end - start >= 4 && chars[end - 4] == '.' && chars[end - 3] == 't' && chars[end - 2]
        == 'x' && chars[end - 1] == 't';
    proof {
        let suffix = seq!['.', 't', 'x', 't'];
        if token.len() >= 4 {
            let tail = token.subrange(token.len() - 4, token.len() as int);
            if r {
                assert(tail =~= suffix);
            } else {
                assert(tail != suffix) by {
                    if tail == suffix {
                        assert(tail[0] == chars@[end - 4]);
                        assert(tail[1] == chars@[end - 3]);
                        assert(tail[2] == chars@[end - 2]);
                        assert(tail[3] == chars@[end - 1]);
                    }
                }
            }
        }
        reveal_strlit("text/plain");
        assert("text/plain"@.len() != 0);
    }
    r
}

/// `after` is `before` with the text decoded from `bytes` and the references
/// it holds recorded.
pub open spec fn parsed_text(before: DemoResource, after: DemoResource, bytes: Seq<u8>) -> bool {
    let text = vstd::utf8::decode_utf8(bytes);
    &&& after.data matches Some(t) && t@ == text
    &&& link_views(after.resources@) == discovered(text, before.url@, tokens(text))
    &&& after.url == before.url
    &&& after.first_child == before.first_child
}

/// A text resource whose quoted references are resolved against its own
/// locator and become child assets.
pub struct DemoResource {
    /// The decoded text, once parsed.
    pub data: Option<String>,
    /// The locator references are resolved against.
    pub url: String,
    /// The resolvable references, in the order they appear.
    pub resources: Vec<Link>,
    /// Where the child assets stand in the asset tree (the child of link `k`
    /// at `first_child + k`).
    pub first_child: usize,
}

impl DemoResource {
    pub fn new(url: String) -> (r: DemoResource)
        ensures
            r.data is None,
            r.url == url,
            r.resources@.len() == 0,
            r.first_child == 0,
            r.wf(),
    {
        DemoResource { data: None, url, resources: Vec::new(), first_child: 0 }
    }

    /// The recorded spans are ordered, and lie inside the text.
    pub open spec fn wf(&self) -> bool {
        match self.data {
            Some(t) => spans_ordered(link_spans(self.resources@), 0, t@.len() as int),
            None => self.resources@.len() == 0,
        }
    }

    pub fn has_data(&self) -> (r: bool)
        ensures
            r == self.data is Some,
    {
        self.data.is_some()
    }

    /// Decode `bytes` as UTF-8 and record every quoted reference that
    /// resolves against this resource's locator; content is taken only once.
    pub fn parse(&mut self, bytes: &[u8]) -> (r: Result<()>)
        requires
            old(self).wf(),
        ensures
            final(self).wf(),
            old(self).data is Some ==> r == Err::<(), Error>(Error::AlreadyParsed) && *final(self)
                == *old(self),
            old(self).data is None && !vstd::utf8::valid_utf8(bytes@) ==> r == Err::<(), Error>(
                Error::ParseError,
            ) && *final(self) == *old(self),
            old(self).data is None && vstd::utf8::valid_utf8(bytes@) ==> r is Ok && parsed_text(
                *old(self),
                *final(self),
                bytes@,
            ),
    {
        if self.data.is_some() {
            return Err(Error::AlreadyParsed);
        }
        let text = match decode_utf8_text(bytes) {
            Some(t) => t,
            None => return Err(Error::ParseError),
        };
        let chars = chars_of(text.as_str());
        let spans = find_tokens(&chars);
        proof {
            lemma_tokens_ordered(chars@, 0);
        }
        let ghost toks = tokens(chars@);
        let mut links: Vec<Link> = Vec::new();
        let mut k: usize = 0;
        while k < spans.len()
            invariant
                chars@ == text@,
                span_views(spans@) == toks,
                toks == tokens(chars@),
                spans_ordered(toks, 0, chars@.len() as int),
                k <= spans@.len(),
                link_views(links@) == discovered(chars@, self.url@, toks.take(k as int)),
                spans_ordered(link_spans(links@), 0, chars@.len() as int),
                links@.len() > 0 ==> k > 0 && links@.last().end <= spans@[k - 1].end,
            decreases spans@.len() - k,
        {
            let start = spans[k].start;
            let end = spans[k].end;
            assert(toks[k as int] == (start as int, end as int));
            assert(0 <= toks[k as int].0 < toks[k as int].1 <= chars@.len());
            let token = text.as_str().substring_char(start, end);
            let ghost before = links@;
            assert(toks.take(k + 1).drop_last() =~= toks.take(k as int));
            match join_locator(self.url.as_str(), token) {
                Some(u) => {
                    let hint = if ends_with_txt(&chars, start, end) {
                        String::from_str("text/plain")
                    } else {
                        String::new()
                    };
                    proof {
                        if hint@.len() == 0 {
                            reveal_strlit("text/plain");
                        }
                    }
                    links.push(Link { start, end, url: u, mime_hint: hint });
                    assert(link_views(links@) =~= link_views(before).push(
                        (start as int, end as int, u@, hint@),
                    ));
                    assert(link_spans(links@) =~= link_spans(before).push((start as int, end as int)));
                    if k > 0 {
                        assert(toks[k - 1].1 <= toks[k as int].0);
                    }
                },
                None => {},
            }
            k = k + 1;
        }
        assert(toks.take(spans@.len() as int) =~= toks);
        self.data = Some(text);
        self.resources = links;
        Ok(())
    }

    /// A fresh asset, with no resource attached, for each recorded reference.
    pub fn needed_assets(&self) -> (r: Vec<Asset>)
        ensures
            r@.len() == self.resources@.len(),
            forall|k: int|
                0 <= k < r@.len() ==> {
                    &&& (#[trigger] r@[k]).url@ == self.resources@[k].url@
                    &&& r@[k].mime_hint@ == self.resources@[k].mime_hint@
                    &&& r@[k].data is None
                    &&& !r@[k].abandoned
                },
    {
        let mut out: Vec<Asset> = Vec::new();
        let mut k: usize = 0;
        while k < self.resources.len()
            invariant
                k <= self.resources@.len(),
                out@.len() == k,
                forall|j: int|
                    0 <= j < k ==> {
                        &&& (#[trigger] out@[j]).url@ == self.resources@[j].url@
                        &&& out@[j].mime_hint@ == self.resources@[j].mime_hint@
                        &&& out@[j].data is None
                        &&& !out@[j].abandoned
                    },
            decreases self.resources@.len() - k,
        {
            let link = &self.resources[k];
            out.push(Asset::new(link.url.clone(), link.mime_hint.clone()));
            k = k + 1;
        }
        out
    }

    /// The text with each recorded reference replaced by its substitute, or
    /// left as written where the substitute is `None`, as UTF-8.
    pub fn render(&self, substitutes: &Vec<Option<String>>) -> (r: Result<Vec<u8>>)
        requires
            self.wf(),
            substitutes@.len() == self.resources@.len(),
        ensures
            self.data is None ==> r == Err::<Vec<u8>, Error>(Error::ResourceUnloaded),
            self.data matches Some(t) ==> r matches Ok(b) && b@ == vstd::utf8::encode_utf8(
                splice(t@, link_spans(self.resources@), substitute_views(substitutes@)),
            ),
    {
        let text = match &self.data {
            Some(t) => t.as_str(),
            None => return Err(Error::ResourceUnloaded),
        };
        let ghost spans = link_spans(self.resources@);
        let ghost subs = substitute_views(substitutes@);
        let mut out = String::new();
        let mut prev: usize = 0;
        let mut k: usize = 0;
        while k < self.resources.len()
            invariant
                self.wf(),
                self.data matches Some(t) && t@ == text@,
                spans == link_spans(self.resources@),
                subs == substitute_views(substitutes@),
                substitutes@.len() == self.resources@.len(),
                k <= self.resources@.len(),
                prev == end_before(spans, k as int),
                prev <= text@.len(),
                out@ == splice_prefix(text@, spans, subs, k as int),
            decreases self.resources@.len() - k,
        {
            let start = self.resources[k].start;
            let end = self.resources[k].end;
            assert(spans[k as int] == (start as int, end as int));
            if k > 0 {
                assert(spans[k - 1].1 <= spans[k as int].0);
            }
            out.append(text.substring_char(prev, start));
            match &substitutes[k] {
                Some(s) => out.append(s.as_str()),
                None => out.append(text.substring_char(start, end)),
            }
            prev = end;
            k = k + 1;
        }
        let len = text.unicode_len();
        out.append(text.substring_char(prev, len));
        Ok(out.as_str().as_bytes_vec())
    }
}

/// The resource attached to an asset.
pub enum Resource {
    Inert(InertResource),
    Demo(DemoResource),
}

impl Resource {
    pub open spec fn wf(&self) -> bool {
        match self {
            Resource::Inert(_) => true,
            Resource::Demo(d) => d.wf(),
        }
    }

    pub open spec fn spec_has_data(&self) -> bool {
        match self {
            Resource::Inert(r) => r.data is Some,
            Resource::Demo(d) => d.data is Some,
        }
    }

    /// Whether content has been parsed.
    pub fn has_data(&self) -> (r: bool)
        ensures
            r == self.spec_has_data(),
    {
        match self {
            Resource::Inert(r) => r.has_data(),
            Resource::Demo(d) => d.has_data(),
        }
    }

    /// Hand `bytes` to the resource; content is taken only once.
    pub fn parse(&mut self, bytes: Vec<u8>) -> (r: Result<()>)
        requires
            old(self).wf(),
        ensures
            final(self).wf(),
            old(self).spec_has_data() ==> {
                &&& r == Err::<(), Error>(Error::AlreadyParsed)
                &&& *final(self) == *old(self)
            },
            !old(self).spec_has_data() ==> match *old(self) {
                Resource::Inert(_) => r is Ok && *final(self) == Resource::Inert(
                    InertResource { data: Some(bytes) },
                ),
                Resource::Demo(d) => if vstd::utf8::valid_utf8(bytes@) {
                    &&& r is Ok
                    &&& *final(self) matches Resource::Demo(e) && parsed_text(d, e, bytes@)
                } else {
                    r == Err::<(), Error>(Error::ParseError) && *final(self) == *old(self)
                },
            },
    {
        match self {
            Resource::Inert(r) => r.parse(bytes),
            Resource::Demo(d) => d.parse(bytes.as_slice()),
        }
    }
}

} // verus!
