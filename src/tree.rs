//! The asset tree that resolution grows, kept as an arena: every asset has a
//! stable index, the root is at index 0, and the children of a text resource
//! stand one after another behind their parent.
use vstd::prelude::*;

use crate::asset::is_chosen_resource;
use crate::asset::Asset;
use crate::asset::Error;
use crate::asset::Result;
use crate::resources::discovered;
use crate::resources::link_spans;
use crate::resources::splice;
use crate::resources::substitute_views;
use crate::resources::InertResource;
use crate::resources::Resource;
use crate::scan::tokens;
use crate::util::data_to_dataurl;
use crate::util::data_url;
use crate::util::decode_utf8_text;

verus! {

/// Index of the first child of `a` (meaningful for a parsed text resource).
pub open spec fn first_child_of(a: Asset) -> int {
    match a.data {
        Some(Resource::Demo(d)) => d.first_child as int,
        _ => 0,
    }
}

/// Number of children of `a`.
pub open spec fn child_count(a: Asset) -> int {
    match a.data {
        Some(Resource::Demo(d)) => d.resources@.len() as int,
        _ => 0,
    }
}

/// The bytes that asset `i` renders to, or `None` where rendering fails.
pub open spec fn rendered(assets: Seq<Asset>, i: int) -> Option<Seq<u8>>
    decreases assets.len() - i, 1int, 0int,
{
    if i < 0 || i >= assets.len() {
        None
    } else {
        match assets[i].data {
            None => None,
            Some(Resource::Inert(r)) => match r.data {
                Some(b) => Some(b@),
                None => None,
            },
            Some(Resource::Demo(d)) => match d.data {
                None => None,
                Some(t) => match substitutes(assets, i, d.resources@.len() as int) {
                    Some(subs) => Some(
                        vstd::utf8::encode_utf8(splice(t@, link_spans(d.resources@), subs)),
                    ),
                    None => None,
                },
            },
        }
    }
}

/// What replaces each of the first `k` references of asset `i`: the data
/// URI of the child's rendering, or nothing for an abandoned child; `None`
/// where a child that was not abandoned fails to render.
pub open spec fn substitutes(assets: Seq<Asset>, i: int, k: int) -> Option<Seq<Option<Seq<char>>>>
    decreases assets.len() - i, 0int, k,
{
    if k <= 0 || i < 0 || i >= assets.len() {
        Some(Seq::empty())
    } else {
        match substitutes(assets, i, k - 1) {
            None => None,
            Some(prev) => {
                let c = first_child_of(assets[i]) + k - 1;
                if c <= i || c >= assets.len() {
                    None
                } else if assets[c].abandoned {
                    Some(prev.push(None))
                } else {
                    match rendered(assets, c) {
                        Some(b) => Some(prev.push(Some(data_url(assets[c].mime_hint@, b)))),
                        None => None,
                    }
                }
            },
        }
    }
}

/// Asset `i` of `assets` is well formed: its resource is, and a parsed text
/// resource has its children behind it, inside the tree.
pub open spec fn node_wf(assets: Seq<Asset>, i: int) -> bool {
    match assets[i].data {
        Some(Resource::Demo(d)) => {
            &&& d.wf()
            &&& d.data is Some ==> i < d.first_child && d.first_child + d.resources@.len()
                <= assets.len()
        },
        _ => true,
    }
}

/// The children indices `first .. first + n`.
pub open spec fn index_range(first: int, n: int) -> Seq<usize> {
    Seq::new(n as nat, |k: int| (first + k) as usize)
}

proof fn lemma_substitutes_none(assets: Seq<Asset>, i: int, k: int, m: int)
    requires
        0 <= k <= m,
        substitutes(assets, i, k) is None,
    ensures
        substitutes(assets, i, m) is None,
    decreases m - k,
{
    if k < m {
        lemma_substitutes_none(assets, i, k, m - 1);
    }
}

proof fn lemma_substitutes_prefix(assets: Seq<Asset>, i: int, k: int, m: int)
    requires
        0 <= k <= m,
        substitutes(assets, i, m) is Some,
    ensures
        substitutes(assets, i, k) is Some,
    decreases m - k,
{
    if k < m {
        lemma_substitutes_prefix(assets, i, k + 1, m);
    }
}

/// Rendering succeeds only where the asset's resource holds content and
/// every child that was not abandoned renders too; applied at each child in
/// turn, this reaches every asset below.
pub proof fn lemma_render_needs_children(assets: Seq<Asset>, i: int)
    requires
        rendered(assets, i) is Some,
    ensures
        0 <= i < assets.len(),
        assets[i].data matches Some(res) && res.spec_has_data(),
        forall|k: int|
            0 <= k < child_count(assets[i]) ==> {
                &&& i < first_child_of(assets[i]) + k < assets.len()
                &&& (#[trigger] assets[first_child_of(assets[i]) + k]).abandoned || rendered(
                    assets,
                    first_child_of(assets[i]) + k,
                ) is Some
            },
{
    match assets[i].data {
        Some(Resource::Demo(d)) => {
            let n = d.resources@.len() as int;
            assert forall|k: int| 0 <= k < child_count(assets[i]) implies {
                &&& i < first_child_of(assets[i]) + k < assets.len()
                &&& (#[trigger] assets[first_child_of(assets[i]) + k]).abandoned || rendered(
                    assets,
                    first_child_of(assets[i]) + k,
                ) is Some
            } by {
                lemma_substitutes_prefix(assets, i, k + 1, n);
            }
        },
        _ => {},
    }
}

/// Asset `j` lies `depth` levels below asset `i`, along children that were
/// not abandoned.
pub open spec fn below(assets: Seq<Asset>, i: int, j: int, depth: nat) -> bool
    decreases depth,
{
    if depth == 0 {
        i == j
    } else {
        exists|k: int|
            0 <= k < child_count(assets[i]) && !(#[trigger] assets[first_child_of(assets[i])
                + k]).abandoned && below(assets, first_child_of(assets[i]) + k, j, (depth - 1) as nat)
    }
}

/// Rendering an asset succeeds only where every asset below it that was not
/// abandoned holds content and renders too.
pub proof fn lemma_render_needs_descendants(assets: Seq<Asset>, i: int, j: int, depth: nat)
    requires
        rendered(assets, i) is Some,
        below(assets, i, j, depth),
    ensures
        rendered(assets, j) is Some,
        0 <= j < assets.len(),
        assets[j].data matches Some(res) && res.spec_has_data(),
    decreases depth,
{
    if depth == 0 {
        lemma_render_needs_children(assets, j);
    } else {
        let k = choose|k: int|
            0 <= k < child_count(assets[i]) && !(#[trigger] assets[first_child_of(assets[i])
                + k]).abandoned && below(assets, first_child_of(assets[i]) + k, j, (depth - 1) as nat);
        lemma_render_needs_children(assets, i);
        let c = first_child_of(assets[i]) + k;
        assert(assets[c].abandoned || rendered(assets, c) is Some);
        lemma_render_needs_descendants(assets, c, j, (depth - 1) as nat);
    }
}

/// A pass-through resource renders exactly the bytes it was given.
pub proof fn lemma_passthrough_round_trip(assets: Seq<Asset>, i: int, bytes: Seq<u8>)
    requires
        0 <= i < assets.len(),
        assets[i].data matches Some(Resource::Inert(r)) && r.data matches Some(b) && b@ == bytes,
    ensures
        rendered(assets, i) == Some(bytes),
{
}

fn index_range_vec(first: usize, n: usize) -> (r: Vec<usize>)
    requires
        first + n <= usize::MAX,
    ensures
        r@ == index_range(first as int, n as int),
{
    let mut out: Vec<usize> = Vec::new();
    let mut k: usize = 0;
    while k < n
        invariant
            k <= n,
            first + n <= usize::MAX,
            out@ == index_range(first as int, k as int),
        decreases n - k,
    {
        out.push(first + k);
        k = k + 1;
        assert(out@ =~= index_range(first as int, k as int));
    }
    out
}

/// The arena of assets; the root is at index 0.
pub struct AssetTree {
    pub assets: Vec<Asset>,
}

impl AssetTree {
    pub open spec fn wf(&self) -> bool {
        &&& self.assets@.len() >= 1
        &&& forall|i: int| 0 <= i < self.assets@.len() ==> #[trigger] node_wf(self.assets@, i)
    }

    /// A tree holding `root` alone, with a resource chosen for it.
    pub fn new(root: Asset) -> (r: AssetTree)
        requires
            match root.data {
                Some(res) => res.wf() && !res.spec_has_data(),
                None => true,
            },
        ensures
            r.wf(),
            r.assets@.len() == 1,
            r.assets@[0].url == root.url,
            r.assets@[0].mime_hint == root.mime_hint,
            r.assets@[0].abandoned == root.abandoned,
            root.data is Some ==> r.assets@[0].data == root.data,
            root.data is None ==> match r.assets@[0].data {
                Some(res) => is_chosen_resource(res, root.mime_hint@, root.url),
                None => false,
            },
    {
        let mut root = root;
        root.auto_select_resource_type();
        let mut assets: Vec<Asset> = Vec::new();
        assets.push(root);
        let r = AssetTree { assets };
        assert(node_wf(r.assets@, 0));
        r
    }

    /// Render asset `i` with every reference of a text resource replaced by
    /// the data URI of its child's rendering (abandoned children keep the
    /// reference as written). Fails with `ResourceUnloaded` where an asset
    /// that rendering needs holds no content.
    pub fn render_asset(&self, i: usize) -> (r: Result<Vec<u8>>)
        requires
            self.wf(),
            i < self.assets@.len(),
        ensures
            match rendered(self.assets@, i as int) {
                Some(b) => r matches Ok(o) && o@ == b,
                None => r == Err::<Vec<u8>, Error>(Error::ResourceUnloaded),
            },
        decreases self.assets@.len() - i,
    {
        assert(node_wf(self.assets@, i as int));
        match &self.assets[i].data {
            None => Err(Error::ResourceUnloaded),
            Some(Resource::Inert(res)) => res.render(),
            Some(Resource::Demo(d)) => {
                if !d.has_data() {
                    return Err(Error::ResourceUnloaded);
                }
                let ghost assets = self.assets@;
                let n = d.resources.len();
                let mut subs: Vec<Option<String>> = Vec::new();
                let mut k: usize = 0;
                while k < n
                    invariant
                        self.wf(),
                        assets == self.assets@,
                        i < assets.len(),
                        assets[i as int].data == Some(Resource::Demo(*d)),
                        d.data is Some,
                        n == d.resources@.len(),
                        i < d.first_child,
                        d.first_child + n <= assets.len(),
                        k <= n,
                        subs@.len() == k,
                        substitutes(assets, i as int, k as int) == Some(substitute_views(subs@)),
                    decreases n - k,
                {
                    assert(d.first_child + k < self.assets.len());
                    let c = d.first_child + k;
                    let ghost prev = subs@;
                    if self.assets[c].abandoned {
                        subs.push(None);
                    } else {
                        match self.render_asset(c) {
                            Ok(b) => {
                                let u = data_to_dataurl(self.assets[c].mime_hint.as_str(), b.as_slice());
                                subs.push(Some(u));
                            },
                            Err(e) => {
                                proof {
                                    lemma_substitutes_none(assets, i as int, k + 1, n as int);
                                }
                                return Err(e);
                            },
                        }
                    }
                    assert(substitute_views(subs@) =~= substitute_views(prev).push(
                        substitute_views(subs@).last(),
                    ));
                    k = k + 1;
                }
                d.render(&subs)
            },
        }
    }

    /// Asset `i` holds a resource that still waits for its content.
    pub fn needs_fetch(&self, i: usize) -> (r: bool)
        requires
            i < self.assets@.len(),
        ensures
            r == (self.assets@[i as int].data matches Some(res) && !res.spec_has_data()),
    {
        match &self.assets[i].data {
            Some(res) => !res.has_data(),
            None => false,
        }
    }

    /// Hand the outcome of fetching asset `i` to it, and return the indices
    /// of the children it needs: on first parsing of a text resource one new
    /// asset per recorded reference, each with a resource chosen by its hint,
    /// appended to the tree; when the asset already held content, its
    /// existing children. A transport or parse failure abandons the asset,
    /// so its parent keeps the reference as written.
    pub fn download(&mut self, i: usize, fetched: std::result::Result<Vec<u8>, String>) -> (r:
        Result<Vec<usize>>)
        requires
            old(self).wf(),
            i < old(self).assets@.len(),
        ensures
            final(self).wf(),
            ({
                let a = old(self).assets@[i as int];
                let n0 = old(self).assets@.len() as int;
                match a.data {
                    None => {
                        &&& r == Err::<Vec<usize>, Error>(Error::MissingResource)
                        &&& final(self).assets@ == old(self).assets@
                    },
                    Some(res) => if res.spec_has_data() {
                        &&& r matches Ok(v) && v@ == index_range(first_child_of(a), child_count(a))
                        &&& final(self).assets@ == old(self).assets@
                    } else {
                        match fetched {
                            Err(msg) => {
                                &&& r == Err::<Vec<usize>, Error>(Error::HttpError(msg))
                                &&& final(self).assets@ == old(self).assets@.update(
                                    i as int,
                                    Asset { abandoned: true, ..a },
                                )
                            },
                            Ok(bytes) => match res {
                                Resource::Inert(_) => {
                                    &&& r matches Ok(v) && v@.len() == 0
                                    &&& final(self).assets@ == old(self).assets@.update(
                                        i as int,
                                        Asset {
                                            data: Some(
                                                Resource::Inert(InertResource { data: Some(bytes) }),
                                            ),
                                            ..a
                                        },
                                    )
                                },
                                Resource::Demo(d) => if !vstd::utf8::valid_utf8(bytes@) {
                                    &&& r == Err::<Vec<usize>, Error>(Error::ParseError)
                                    &&& final(self).assets@ == old(self).assets@.update(
                                        i as int,
                                        Asset { abandoned: true, ..a },
                                    )
                                } else {
                                    let text = vstd::utf8::decode_utf8(bytes@);
                                    let b = final(self).assets@[i as int];
                                    &&& b.url == a.url
                                    &&& b.mime_hint == a.mime_hint
                                    &&& b.abandoned == a.abandoned
                                    &&& b.data matches Some(Resource::Demo(e)) && {
                                        &&& e.data matches Some(t) && t@ == text
                                        &&& e.url == d.url
                                        &&& e.first_child == n0
                                        &&& crate::resources::link_views(e.resources@)
                                            == discovered(text, d.url@, tokens(text))
                                        &&& final(self).assets@.len() == n0 + e.resources@.len()
                                        &&& r matches Ok(v) && v@ == index_range(
                                            n0,
                                            e.resources@.len() as int,
                                        )
                                        &&& forall|k: int|
                                            0 <= k < e.resources@.len() ==> {
                                                let c = #[trigger] final(self).assets@[n0 + k];
                                                &&& c.url@ == e.resources@[k].url@
                                                &&& c.mime_hint@ == e.resources@[k].mime_hint@
                                                &&& !c.abandoned
                                                &&& c.data matches Some(cr) && is_chosen_resource(
                                                    cr,
                                                    c.mime_hint@,
                                                    c.url,
                                                )
                                            }
                                    }
                                    &&& forall|j: int|
                                        0 <= j < n0 && j != i ==> #[trigger] final(self).assets@[j]
                                            == old(self).assets@[j]
                                },
                            },
                        }
                    },
                }
            }),
    {
        let ghost old_assets = self.assets@;
        let n0 = self.assets.len();
        assert(node_wf(old_assets, i as int));
        let mut node = Asset::new(String::new(), String::new());
        self.assets.set_and_swap(i, &mut node);
        let had = match &node.data {
            Some(res) => res.has_data(),
            None => {
                self.assets.set(i, node);
                assert(self.assets@ =~= old_assets);
                return Err(Error::MissingResource);
            },
        };
        if had {
            let (first, count) = match &node.data {
                Some(Resource::Demo(d)) => (d.first_child, d.resources.len()),
                _ => (0, 0),
            };
            self.assets.set(i, node);
            assert(self.assets@ =~= old_assets);
            return Ok(index_range_vec(first, count));
        }
        let outcome = node.download(fetched);
        if let Err(e) = outcome {
            node.abandoned = true;
            self.assets.set(i, node);
            proof {
                assert forall|j: int| 0 <= j < self.assets@.len() implies #[trigger] node_wf(
                    self.assets@,
                    j,
                ) by {
                    assert(node_wf(old_assets, j));
                }
            }
            return Err(e);
        }
        let children: Vec<Asset> = match &mut node.data {
            Some(Resource::Demo(d)) => {
                d.first_child = n0;
                d.needed_assets()
            },
            _ => Vec::new(),
        };
        self.assets.set(i, node);
        let ghost mid = self.assets@;
        let count = children.len();
        let mut k: usize = 0;
        while k < count
            invariant
                count == children@.len(),
                k <= count,
                self.assets@.len() == n0 + k,
                mid.len() == n0,
                forall|j: int| 0 <= j < n0 ==> #[trigger] self.assets@[j] == mid[j],
                forall|q: int|
                    0 <= q < k ==> {
                        let c = #[trigger] self.assets@[n0 + q];
                        &&& c.url@ == children@[q].url@
                        &&& c.mime_hint@ == children@[q].mime_hint@
                        &&& !c.abandoned
                        &&& c.data matches Some(cr) && is_chosen_resource(cr, c.mime_hint@, c.url)
                    },
            decreases count - k,
        {
            let src = &children[k];
            let mut child = Asset::new(src.url.clone(), src.mime_hint.clone());
            child.auto_select_resource_type();
            self.assets.push(child);
            k = k + 1;
        }
        proof {
            assert forall|j: int| 0 <= j < self.assets@.len() implies #[trigger] node_wf(
                self.assets@,
                j,
            ) by {
                if j < n0 && j != i {
                    assert(node_wf(old_assets, j));
                } else if j >= n0 {
                    let c = self.assets@[n0 + (j - n0)];
                }
            }
        }
        assert(n0 + count == self.assets.len());
        Ok(index_range_vec(n0, count))
    }

    /// The root rendered and decoded as UTF-8 text.
    pub fn try_stringify(&self) -> (r: Result<String>)
        requires
            self.wf(),
        ensures
            self.assets@[0].data is None ==> r == Err::<String, Error>(Error::MissingResource),
            self.assets@[0].data is Some ==> match rendered(self.assets@, 0) {
                None => r == Err::<String, Error>(Error::ResourceUnloaded),
                Some(b) => if vstd::utf8::valid_utf8(b) {
                    r matches Ok(s) && s@ == vstd::utf8::decode_utf8(b)
                } else {
                    r == Err::<String, Error>(Error::ParseError)
                },
            },
    {
        if self.assets[0].data.is_none() {
            return Err(Error::MissingResource);
        }
        let bytes = self.render_asset(0)?;
        match decode_utf8_text(bytes.as_slice()) {
            Some(s) => Ok(s),
            None => Err(Error::ParseError),
        }
    }
}

} // verus!
