use vstd::prelude::*;
use crate::error::Error;
use crate::extract::ResourceKind;
use crate::extract::raws_view;
use crate::extract::scan;
use crate::extract::scan_exec;
use crate::urls::url_join;
use crate::urls::join_abs_url;

verus! {

/// A discovered, typed pointer to a resource prior to fetching: an absolute
/// URL tagged with the kind of construct it was found in. Its identity is
/// the URL text; the view pairs that text with the kind.
#[derive(Debug)]
pub enum ResourceUrl {
    Image(String),
    Css(String),
    Javascript(String),
}

impl ResourceUrl {
    pub open spec fn spec_url(&self) -> Seq<char> {
        match self {
            ResourceUrl::Image(u) => u@,
            ResourceUrl::Css(u) => u@,
            ResourceUrl::Javascript(u) => u@,
        }
    }

    pub open spec fn spec_kind(&self) -> ResourceKind {
        match self {
            ResourceUrl::Image(_) => ResourceKind::Image,
            ResourceUrl::Css(_) => ResourceKind::Css,
            ResourceUrl::Javascript(_) => ResourceKind::Javascript,
        }
    }

    /// The absolute URL of the reference.
    pub fn url(&self) -> (u: &String)
        ensures
            u@ == self.spec_url(),
    {
        match self {
            ResourceUrl::Image(u) => u,
            ResourceUrl::Css(u) => u,
            ResourceUrl::Javascript(u) => u,
        }
    }

    /// The kind of construct the reference was found in.
    pub fn kind(&self) -> (k: ResourceKind)
        ensures
            k == self.spec_kind(),
    {
        match self {
            ResourceUrl::Image(_) => ResourceKind::Image,
            ResourceUrl::Css(_) => ResourceKind::Css,
            ResourceUrl::Javascript(_) => ResourceKind::Javascript,
        }
    }
}

impl View for ResourceUrl {
    type V = (Seq<char>, ResourceKind);

    open spec fn view(&self) -> (Seq<char>, ResourceKind) {
        (self.spec_url(), self.spec_kind())
    }
}

impl Clone for ResourceUrl {
    fn clone(&self) -> (r: Self)
        ensures
            r@ == self@,
    {
        match self {
            ResourceUrl::Image(u) => ResourceUrl::Image(u.clone()),
            ResourceUrl::Css(u) => ResourceUrl::Css(u.clone()),
            ResourceUrl::Javascript(u) => ResourceUrl::Javascript(u.clone()),
        }
    }
}

/// The views of a sequence of typed references.
pub open spec fn refs_view(rs: Seq<ResourceUrl>) -> Seq<(Seq<char>, ResourceKind)> {
    rs.map_values(|r: ResourceUrl| r@)
}

/// Raw references turned absolute: each reference text is resolved against
/// the page's base URL, in order; one that does not resolve is dropped.
pub open spec fn resolve_refs(base: Seq<char>, raws: Seq<(Seq<char>, ResourceKind)>) -> Seq<
    (Seq<char>, ResourceKind),
>
    decreases raws.len(),
{
    if raws.len() == 0 {
        Seq::empty()
    } else {
        let front = resolve_refs(base, raws.drop_last());
        match url_join(base, raws.last().0) {
            Some(u) => front.push((u, raws.last().1)),
            None => front,
        }
    }
}

/// Some reference in `refs` points at the URL `u`.
pub open spec fn has_url(refs: Seq<(Seq<char>, ResourceKind)>, u: Seq<char>) -> bool {
    exists|t: int| 0 <= t < refs.len() && refs[t].0 == u
}

/// Collapses duplicate URLs to their first occurrence, keeping document
/// order; the kind first encountered for a URL wins.
pub open spec fn dedup_refs(refs: Seq<(Seq<char>, ResourceKind)>) -> Seq<
    (Seq<char>, ResourceKind),
>
    decreases refs.len(),
{
    if refs.len() == 0 {
        Seq::empty()
    } else {
        let front = dedup_refs(refs.drop_last());
        if has_url(front, refs.last().0) {
            front
        } else {
            front.push(refs.last())
        }
    }
}

/// What the Resource Extractor yields on a page: the scanned references,
/// resolved against the base URL and deduplicated; `None` when the markup
/// cannot be parsed.
pub open spec fn spec_extract(content: Seq<char>, base: Seq<char>) -> Option<
    Seq<(Seq<char>, ResourceKind)>,
> {
    match scan(content, 0) {
        None => None,
        Some(raws) => Some(dedup_refs(resolve_refs(base, raws))),
    }
}

fn make_ref(url: String, k: ResourceKind) -> (r: ResourceUrl)
    ensures
        r@ == (url@, k),
{
    match k {
        ResourceKind::Image => ResourceUrl::Image(url),
        ResourceKind::Css => ResourceUrl::Css(url),
        ResourceKind::Javascript => ResourceUrl::Javascript(url),
    }
}

fn resolve_exec(base: &str, raws: &Vec<(String, ResourceKind)>) -> (r: Vec<ResourceUrl>)
    ensures
        refs_view(r@) == resolve_refs(base@, raws_view(raws@)),
{
    let mut out: Vec<ResourceUrl> = Vec::new();
    let mut idx: usize = 0;
    while idx < raws.len()
        invariant
            idx <= raws.len(),
            refs_view(out@) == resolve_refs(base@, raws_view(raws@).take(idx as int)),
        decreases raws.len() - idx,
    {
        let k = raws[idx].1;
        let ghost old_out = out@;
        let joined = join_abs_url(base, raws[idx].0.as_str());
        match joined {
            Some(u) => {
                let ghost uview = u@;
                out.push(make_ref(u, k));
                proof {
                    assert(refs_view(out@) =~= refs_view(old_out).push((uview, k)));
                }
            },
            None => {},
        }
        proof {
            let rv = raws_view(raws@);
            assert(rv.take(idx + 1).drop_last() =~= rv.take(idx as int));
            assert(rv.take(idx + 1).last() == rv[idx as int]);
            assert(rv[idx as int] == (raws@[idx as int].0@, raws@[idx as int].1));
        }
        idx += 1;
    }
    proof {
        assert(raws_view(raws@).take(raws@.len() as int) =~= raws_view(raws@));
    }
    out
}

fn has_url_exec(refs: &Vec<ResourceUrl>, u: &String) -> (b: bool)
    ensures
        b == has_url(refs_view(refs@), u@),
{
    let mut t: usize = 0;
    while t < refs.len()
        invariant
            t <= refs.len(),
            forall|q: int| 0 <= q < t ==> refs_view(refs@)[q].0 != u@,
        decreases refs.len() - t,
    {
        if refs[t].url().eq(u) {
            assert(refs_view(refs@)[t as int].0 == u@);
            return true;
        }
        assert(refs_view(refs@)[t as int].0 != u@);
        t += 1;
    }
    false
}

fn dedup_exec(refs: Vec<ResourceUrl>) -> (r: Vec<ResourceUrl>)
    ensures
        refs_view(r@) == dedup_refs(refs_view(refs@)),
{
    let mut out: Vec<ResourceUrl> = Vec::new();
    let mut idx: usize = 0;
    while idx < refs.len()
        invariant
            idx <= refs.len(),
            refs_view(out@) == dedup_refs(refs_view(refs@).take(idx as int)),
        decreases refs.len() - idx,
    {
        let ghost old_out = out@;
        let dup = has_url_exec(&out, refs[idx].url());
        if !dup {
            out.push(refs[idx].clone());
            proof {
                assert(refs_view(out@) =~= refs_view(old_out).push(refs@[idx as int]@));
            }
        }
        proof {
            let rv = refs_view(refs@);
            assert(rv.take(idx + 1).drop_last() =~= rv.take(idx as int));
            assert(rv.take(idx + 1).last() == rv[idx as int]);
        }
        idx += 1;
    }
    proof {
        assert(refs_view(refs@).take(refs@.len() as int) =~= refs_view(refs@));
    }
    out
}

/// The Resource Extractor: scans the page markup and returns the ordered,
/// deduplicated, typed references it embeds, each resolved into an absolute
/// URL against `base_url`. References are read from image, stylesheet and
/// script constructs with double-quoted values: `<img src="...">`,
/// `<link rel="stylesheet" href="...">` and `<script src="...">`.
/// Pure computation: no I/O happens here. Fails with a `ParseError`
/// exactly when the markup itself cannot be parsed; individual references
/// that do not resolve are merely dropped.
pub fn parse_resource_urls(content: &str, base_url: &str) -> (r: Result<Vec<ResourceUrl>, Error>)
    ensures
        match r {
            Ok(refs) => spec_extract(content@, base_url@) == Some(refs_view(refs@)),
            Err(e) => spec_extract(content@, base_url@) is None && e is ParseError,
        },
{
    match scan_exec(content) {
        None => Err(Error::ParseError("markup cannot be parsed: a tag never closes".to_owned())),
        Some(raws) => {
            let resolved = resolve_exec(base_url, &raws);
            Ok(dedup_exec(resolved))
        },
    }
}

proof fn lemma_has_url_push(
    refs: Seq<(Seq<char>, ResourceKind)>,
    p: (Seq<char>, ResourceKind),
    u: Seq<char>,
)
    ensures
        has_url(refs.push(p), u) == (has_url(refs, u) || p.0 == u),
{
    if has_url(refs, u) {
        let t = choose|t: int| 0 <= t < refs.len() && refs[t].0 == u;
        assert(refs.push(p)[t].0 == u);
    }
    if p.0 == u {
        assert(refs.push(p)[refs.len() as int].0 == u);
    }
    if has_url(refs.push(p), u) {
        let t = choose|t: int| 0 <= t < refs.push(p).len() && refs.push(p)[t].0 == u;
        if t < refs.len() {
            assert(refs[t].0 == u);
        }
    }
}

/// Deduplication law, one half: collapsing duplicates neither loses nor
/// invents URLs — a URL occurs in the deduplicated references exactly when
/// it occurs in the input.
pub proof fn lemma_dedup_contains(refs: Seq<(Seq<char>, ResourceKind)>, u: Seq<char>)
    ensures
        has_url(dedup_refs(refs), u) == has_url(refs, u),
    decreases refs.len(),
{
    if refs.len() == 0 {
    } else {
        let front = dedup_refs(refs.drop_last());
        lemma_dedup_contains(refs.drop_last(), u);
        assert(refs =~= refs.drop_last().push(refs.last()));
        lemma_has_url_push(refs.drop_last(), refs.last(), u);
        if has_url(front, refs.last().0) {
        } else {
            lemma_has_url_push(front, refs.last(), u);
        }
    }
}

/// Deduplication law, the other half: after collapsing, no two references
/// share a URL, so a page referencing the same URL twice yields exactly
/// one reference for it.
pub proof fn lemma_dedup_distinct(refs: Seq<(Seq<char>, ResourceKind)>)
    ensures
        forall|a: int, b: int|
            0 <= a < b < dedup_refs(refs).len() ==> dedup_refs(refs)[a].0 != dedup_refs(
                refs,
            )[b].0,
    decreases refs.len(),
{
    if refs.len() == 0 {
    } else {
        lemma_dedup_distinct(refs.drop_last());
        let front = dedup_refs(refs.drop_last());
        let d = dedup_refs(refs);
        if has_url(front, refs.last().0) {
        } else {
            assert forall|a: int, b: int| 0 <= a < b < d.len() implies d[a].0 != d[b].0 by {
                if b == front.len() {
                    assert(d[a].0 == front[a].0);
                    if front[a].0 == refs.last().0 {
                        assert(has_url(front, refs.last().0));
                    }
                } else {
                    assert(d[a].0 == front[a].0 && d[b].0 == front[b].0);
                }
            }
        }
    }
}

/// Extraction is a function of the markup and the base URL alone: two runs
/// over the same inputs yield the identical reference sequence.
pub proof fn lemma_extract_deterministic(
    r1: Option<Seq<(Seq<char>, ResourceKind)>>,
    r2: Option<Seq<(Seq<char>, ResourceKind)>>,
    content: Seq<char>,
    base: Seq<char>,
)
    requires
        r1 == spec_extract(content, base),
        r2 == spec_extract(content, base),
    ensures
        r1 == r2,
{
}

/// The references a page extracts are pairwise distinct by URL.
pub proof fn lemma_extract_distinct(content: Seq<char>, base: Seq<char>)
    ensures
        match spec_extract(content, base) {
            Some(refs) => forall|a: int, b: int|
                0 <= a < b < refs.len() ==> refs[a].0 != refs[b].0,
            None => true,
        },
{
    match scan(content, 0) {
        Some(raws) => {
            lemma_dedup_distinct(resolve_refs(base, raws));
        },
        None => {
        },
    }
}

/// The fetched payload for a reference: binary bytes for an image, decoded
/// text for a stylesheet or a script, tagged like its reference.
#[derive(Debug)]
pub enum Resource {
    Image(Vec<u8>),
    Css(String),
    Javascript(String),
}

/// The mathematical value of a fetched resource.
pub enum ResourceModel {
    Image(Seq<u8>),
    Css(Seq<char>),
    Javascript(Seq<char>),
}

impl ResourceModel {
    pub open spec fn kind(&self) -> ResourceKind {
        match self {
            ResourceModel::Image(_) => ResourceKind::Image,
            ResourceModel::Css(_) => ResourceKind::Css,
            ResourceModel::Javascript(_) => ResourceKind::Javascript,
        }
    }
}

impl View for Resource {
    type V = ResourceModel;

    open spec fn view(&self) -> ResourceModel {
        match self {
            Resource::Image(b) => ResourceModel::Image(b@),
            Resource::Css(t) => ResourceModel::Css(t@),
            Resource::Javascript(t) => ResourceModel::Javascript(t@),
        }
    }
}

impl Resource {
    /// The kind under which this payload was fetched.
    pub fn kind(&self) -> (k: ResourceKind)
        ensures
            k == self@.kind(),
    {
        match self {
            Resource::Image(_) => ResourceKind::Image,
            Resource::Css(_) => ResourceKind::Css,
            Resource::Javascript(_) => ResourceKind::Javascript,
        }
    }
}

/// Some entry of `kvs` carries the key `k`.
pub open spec fn has_key(kvs: Seq<(Seq<char>, ResourceModel)>, k: Seq<char>) -> bool {
    exists|i: int| 0 <= i < kvs.len() && kvs[i].0 == k
}

/// The value stored under key `k`, where `k` occurs in `kvs`.
pub open spec fn kv_value(kvs: Seq<(Seq<char>, ResourceModel)>, k: Seq<char>) -> ResourceModel {
    let i = choose|i: int| 0 <= i < kvs.len() && kvs[i].0 == k;
    kvs[i].1
}

/// No two entries share a key.
pub open spec fn distinct_keys(kvs: Seq<(Seq<char>, ResourceModel)>) -> bool {
    forall|a: int, b: int| 0 <= a < b < kvs.len() ==> kvs[a].0 != kvs[b].0
}

proof fn lemma_value_at(kvs: Seq<(Seq<char>, ResourceModel)>, t: int)
    requires
        distinct_keys(kvs),
        0 <= t < kvs.len(),
    ensures
        has_key(kvs, kvs[t].0),
        kv_value(kvs, kvs[t].0) == kvs[t].1,
{
    let k = kvs[t].0;
    assert(0 <= t < kvs.len() && kvs[t].0 == k);
    let i = choose|i: int| 0 <= i < kvs.len() && kvs[i].0 == k;
    if i < t {
        assert(kvs[i].0 != kvs[t].0);
    } else if t < i {
        assert(kvs[t].0 != kvs[i].0);
    }
}

/// A mapping from resource URL (unique key) to fetched resource. Insertion
/// order is kept internally so iteration is deterministic, but the logical
/// value is the map from URL to payload: a second insertion under the same
/// URL overwrites, it never appends.
#[derive(Debug)]
pub struct ResourceMap {
    entries: Vec<(String, Resource)>,
}

impl View for ResourceMap {
    type V = Map<Seq<char>, ResourceModel>;

    closed spec fn view(&self) -> Map<Seq<char>, ResourceModel> {
        Map::new(|k: Seq<char>| has_key(self.kv(), k), |k: Seq<char>| kv_value(self.kv(), k))
    }
}

impl ResourceMap {
    /// The key/value pairs in insertion order.
    pub closed spec fn kv(&self) -> Seq<(Seq<char>, ResourceModel)> {
        self.entries@.map_values(|p: (String, Resource)| (p.0@, p.1@))
    }

    /// Well-formed: no two entries share a URL.
    pub open spec fn wf(&self) -> bool {
        distinct_keys(self.kv())
    }

    /// Every key of the map is an entry key and conversely.
    pub proof fn lemma_contains(&self, k: Seq<char>)
        ensures
            self@.contains_key(k) == has_key(self.kv(), k),
    {
    }

    /// The entry sequence indexes the map: entry `t` holds the value of
    /// its key.
    pub proof fn lemma_kv_index(&self, t: int)
        requires
            self.wf(),
            0 <= t < self.kv().len(),
        ensures
            self@.contains_key(self.kv()[t].0),
            self@[self.kv()[t].0] == self.kv()[t].1,
    {
        lemma_value_at(self.kv(), t);
    }

    pub fn new() -> (r: ResourceMap)
        ensures
            r.wf(),
            r@ == Map::<Seq<char>, ResourceModel>::empty(),
            r.kv() == Seq::<(Seq<char>, ResourceModel)>::empty(),
    {
        let r = ResourceMap { entries: Vec::new() };
        proof {
            assert(r.kv() =~= Seq::<(Seq<char>, ResourceModel)>::empty());
            assert(r@ =~= Map::<Seq<char>, ResourceModel>::empty());
        }
        r
    }

    /// The number of resources held.
    pub fn len(&self) -> (n: usize)
        ensures
            n == self.kv().len(),
    {
        self.entries.len()
    }

    /// The entry at position `i`, in insertion order.
    pub fn entry_at(&self, i: usize) -> (r: &(String, Resource))
        requires
            i < self.kv().len(),
        ensures
            r.0@ == self.kv()[i as int].0,
            r.1@ == self.kv()[i as int].1,
    {
        &self.entries[i]
    }

    /// Looks a resource up by its URL.
    pub fn get(&self, url: &String) -> (r: Option<&Resource>)
        requires
            self.wf(),
        ensures
            match r {
                Some(res) => self@.contains_key(url@) && res@ == self@[url@],
                None => !self@.contains_key(url@),
            },
    {
        let mut t: usize = 0;
        while t < self.entries.len()
            invariant
                t <= self.kv().len(),
                self.wf(),
                self.kv().len() == self.entries@.len(),
                forall|q: int| 0 <= q < t ==> self.kv()[q].0 != url@,
            decreases self.entries.len() - t,
        {
            if self.entries[t].0.eq(url) {
                proof {
                    assert(self.kv()[t as int].0 == url@);
                    lemma_value_at(self.kv(), t as int);
                }
                return Some(&self.entries[t].1);
            }
            assert(self.kv()[t as int].0 != url@);
            t += 1;
        }
        None
    }

    /// Whether a resource is stored under `url`.
    pub fn contains_key(&self, url: &String) -> (b: bool)
        requires
            self.wf(),
        ensures
            b == self@.contains_key(url@),
    {
        match self.get(url) {
            Some(_) => true,
            None => false,
        }
    }

    /// Stores `resource` under `url`, overwriting any prior entry for that
    /// URL: the resulting map is exactly the old one with `url` bound to
    /// the new payload.
    pub fn insert(&mut self, url: String, resource: Resource)
        requires
            old(self).wf(),
        ensures
            final(self).wf(),
            final(self)@ == old(self)@.insert(url@, resource@),
            !old(self)@.contains_key(url@) ==> final(self).kv() == old(self).kv().push(
                (url@, resource@),
            ),
            old(self)@.contains_key(url@) ==> final(self).kv().len() == old(self).kv().len(),
    {
        let ghost old_kv = self.kv();
        let mut t: usize = 0;
        while t < self.entries.len()
            invariant
                t <= old_kv.len(),
                self == old(self),
                old_kv == self.kv(),
                distinct_keys(old_kv),
                old_kv.len() == self.entries@.len(),
                forall|q: int| 0 <= q < t ==> old_kv[q].0 != url@,
            decreases self.entries.len() - t,
        {
            if self.entries[t].0.eq(&url) {
                proof {
                    assert(old_kv[t as int].0 == url@);
                    lemma_value_at(old_kv, t as int);
                }
                let ghost p = (url@, resource@);
                self.entries.set(t, (url, resource));
                proof {
                    assert(self.kv() =~= old_kv.update(t as int, p));
                    assert forall|a: int, b: int|
                        0 <= a < b < self.kv().len() implies self.kv()[a].0 != self.kv()[b].0 by {
                        assert(self.kv()[a].0 == old_kv[a].0);
                        assert(self.kv()[b].0 == old_kv[b].0);
                    }
                    assert forall|k: Seq<char>| true implies #[trigger] self@.contains_key(k)
                        == old(self)@.insert(url@, resource@).contains_key(k) by {
                        if has_key(self.kv(), k) {
                            let i = choose|i: int|
                                0 <= i < self.kv().len() && self.kv()[i].0 == k;
                            if i != t {
                                assert(old_kv[i].0 == k);
                            }
                        }
                        if has_key(old_kv, k) {
                            let i = choose|i: int| 0 <= i < old_kv.len() && old_kv[i].0 == k;
                            if i != t {
                                assert(self.kv()[i].0 == k);
                            } else {
                                assert(self.kv()[t as int].0 == url@);
                            }
                        }
                    }
                    assert forall|k: Seq<char>| self@.contains_key(k) implies self@[k] == old(
                        self,
                    )@.insert(url@, resource@)[k] by {
                        if k == url@ {
                            lemma_value_at(self.kv(), t as int);
                        } else {
                            let i = choose|i: int|
                                0 <= i < self.kv().len() && self.kv()[i].0 == k;
                            assert(i != t);
                            assert(old_kv[i].0 == k);
                            lemma_value_at(self.kv(), i);
                            lemma_value_at(old_kv, i);
                        }
                    }
                    assert(self@ =~= old(self)@.insert(url@, resource@));
                }
                return ;
            }
            assert(old_kv[t as int].0 != url@);
            t += 1;
        }
        proof {
            assert(!has_key(old_kv, url@));
        }
        let ghost p = (url@, resource@);
        self.entries.push((url, resource));
        proof {
            assert(self.kv() =~= old_kv.push(p));
            let n = old_kv.len() as int;
            assert forall|a: int, b: int| 0 <= a < b < self.kv().len() implies self.kv()[a].0
                != self.kv()[b].0 by {
                if b < n {
                    assert(old_kv[a].0 != old_kv[b].0);
                } else {
                    assert(self.kv()[a].0 == old_kv[a].0);
                    assert(!(0 <= a < old_kv.len() && old_kv[a].0 == url@));
                }
            }
            assert forall|k: Seq<char>| true implies #[trigger] self@.contains_key(k) == old(
                self,
            )@.insert(url@, resource@).contains_key(k) by {
                if has_key(self.kv(), k) {
                    let i = choose|i: int| 0 <= i < self.kv().len() && self.kv()[i].0 == k;
                    if i != n {
                        assert(old_kv[i].0 == k);
                    }
                }
                if has_key(old_kv, k) {
                    let i = choose|i: int| 0 <= i < old_kv.len() && old_kv[i].0 == k;
                    assert(self.kv()[i].0 == k);
                }
                if k == url@ {
                    assert(self.kv()[n].0 == k);
                }
            }
            assert forall|k: Seq<char>| self@.contains_key(k) implies self@[k] == old(
                self,
            )@.insert(url@, resource@)[k] by {
                if k == url@ {
                    lemma_value_at(self.kv(), n);
                } else {
                    let i = choose|i: int| 0 <= i < self.kv().len() && self.kv()[i].0 == k;
                    assert(i != n);
                    assert(old_kv[i].0 == k);
                    lemma_value_at(self.kv(), i);
                    lemma_value_at(old_kv, i);
                }
            }
            assert(self@ =~= old(self)@.insert(url@, resource@));
        }
    }
}

} // verus!
