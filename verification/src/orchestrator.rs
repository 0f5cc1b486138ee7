use vstd::prelude::*;
use crate::error::Error;
use crate::extract::ResourceKind;
use crate::page_archive::PageArchive;
use crate::parsing::Resource;
use crate::parsing::ResourceMap;
use crate::parsing::ResourceModel;
use crate::parsing::ResourceUrl;
use crate::parsing::parse_resource_urls;
use crate::parsing::refs_view;
use crate::parsing::spec_extract;
use crate::parsing::resolve_refs;
use crate::parsing::lemma_dedup_distinct;
use crate::extract::scan;

verus! {

/// What the transport collaborator is asked to do next: retrieve the named
/// URL as raw bytes (for an image) or as decoded text (for a stylesheet or
/// a script).
#[derive(Debug)]
pub enum FetchRequest {
    Bytes(String),
    Text(String),
}

/// The mathematical value of a fetch request.
pub enum FetchRequestModel {
    Bytes(Seq<char>),
    Text(Seq<char>),
}

impl View for FetchRequest {
    type V = FetchRequestModel;

    open spec fn view(&self) -> FetchRequestModel {
        match self {
            FetchRequest::Bytes(u) => FetchRequestModel::Bytes(u@),
            FetchRequest::Text(u) => FetchRequestModel::Text(u@),
        }
    }
}

/// The request appropriate to a reference of kind `k`: a binary fetch for
/// an image, a text fetch for a stylesheet or a script.
pub open spec fn request_for(url: Seq<char>, k: ResourceKind) -> FetchRequestModel {
    match k {
        ResourceKind::Image => FetchRequestModel::Bytes(url),
        ResourceKind::Css => FetchRequestModel::Text(url),
        ResourceKind::Javascript => FetchRequestModel::Text(url),
    }
}

/// The payload stored for a text resource of kind `k`.
pub open spec fn text_resource(k: ResourceKind, t: Seq<char>) -> ResourceModel {
    match k {
        ResourceKind::Css => ResourceModel::Css(t),
        _ => ResourceModel::Javascript(t),
    }
}

/// Drives one archive request, after the page body has been retrieved: it
/// extracts the page's references, hands out one fetch request per
/// reference in document order, receives each payload, and finally
/// assembles the archive. Failure policy is fail-fast: a caller that
/// cannot fulfil a request aborts the whole operation with a
/// `RequestError` instead of completing the session, so a partial or
/// corrupt map is never produced.
pub struct ArchiveSession {
    content: String,
    refs: Vec<ResourceUrl>,
    next: usize,
    map: ResourceMap,
}

impl ArchiveSession {
    /// The page markup the session was created over.
    pub closed spec fn spec_content(&self) -> Seq<char> {
        self.content@
    }

    /// The references to fetch, in document order, duplicates collapsed.
    pub closed spec fn refs(&self) -> Seq<(Seq<char>, ResourceKind)> {
        refs_view(self.refs@)
    }

    /// How many references have been fulfilled so far.
    pub closed spec fn fetched(&self) -> int {
        self.next as int
    }

    /// The resources retrieved so far, keyed by URL.
    pub closed spec fn map(&self) -> Map<Seq<char>, ResourceModel> {
        self.map@
    }

    /// The retrieved resources in fetch order.
    pub closed spec fn map_kv(&self) -> Seq<(Seq<char>, ResourceModel)> {
        self.map.kv()
    }

    /// The session's invariant: references are pairwise distinct by URL,
    /// and the map holds exactly the fulfilled prefix of the references,
    /// each payload tagged with its reference's kind.
    pub closed spec fn wf(&self) -> bool {
        &&& self.next <= self.refs().len()
        &&& forall|a: int, b: int|
            0 <= a < b < self.refs().len() ==> self.refs()[a].0 != self.refs()[b].0
        &&& self.map.wf()
        &&& self.map.kv().len() == self.next
        &&& forall|i: int|
            0 <= i < self.next ==> (#[trigger] self.map.kv()[i]).0 == self.refs()[i].0
                && self.map.kv()[i].1.kind() == self.refs()[i].1
    }

    /// Opens a session over a fetched page: extracts the typed,
    /// deduplicated references of `content`, resolved against `base_url`.
    /// Fails with a `ParseError` exactly when extraction does.
    pub fn new(content: String, base_url: &str) -> (r: Result<ArchiveSession, Error>)
        ensures
            match r {
                Ok(s) => {
                    &&& s.wf()
                    &&& s.spec_content() == content@
                    &&& spec_extract(content@, base_url@) == Some(s.refs())
                    &&& s.fetched() == 0
                    &&& s.map() == Map::<Seq<char>, ResourceModel>::empty()
                },
                Err(e) => spec_extract(content@, base_url@) is None && e is ParseError,
            },
    {
        match parse_resource_urls(content.as_str(), base_url) {
            Err(e) => Err(e),
            Ok(refs) => {
                proof {
                    let raws = scan(content@, 0)->Some_0;
                    lemma_dedup_distinct(resolve_refs(base_url@, raws));
                }
                Ok(ArchiveSession { content, refs, next: 0, map: ResourceMap::new() })
            },
        }
    }

    /// The total number of references the session will fetch.
    pub fn num_refs(&self) -> (n: usize)
        ensures
            n == self.refs().len(),
    {
        self.refs.len()
    }

    /// The next retrieval to perform, or `None` when every reference has
    /// been fulfilled. Each reference is handed out exactly once, in
    /// document order.
    pub fn next_request(&self) -> (r: Option<FetchRequest>)
        requires
            self.wf(),
        ensures
            match r {
                Some(req) => self.fetched() < self.refs().len() && req@ == request_for(
                    self.refs()[self.fetched()].0,
                    self.refs()[self.fetched()].1,
                ),
                None => self.fetched() == self.refs().len(),
            },
    {
        if self.next >= self.refs.len() {
            None
        } else {
            let r = &self.refs[self.next];
            let url = r.url().clone();
            match r.kind() {
                ResourceKind::Image => Some(FetchRequest::Bytes(url)),
                ResourceKind::Css => Some(FetchRequest::Text(url)),
                ResourceKind::Javascript => Some(FetchRequest::Text(url)),
            }
        }
    }

    /// Fulfils the current (image) reference with its binary payload and
    /// advances: the map gains exactly that resource under the
    /// reference's URL.
    pub fn fulfill_bytes(&mut self, data: Vec<u8>)
        requires
            old(self).wf(),
            old(self).fetched() < old(self).refs().len(),
            old(self).refs()[old(self).fetched()].1 == ResourceKind::Image,
        ensures
            final(self).wf(),
            final(self).spec_content() == old(self).spec_content(),
            final(self).refs() == old(self).refs(),
            final(self).fetched() == old(self).fetched() + 1,
            final(self).map() == old(self).map().insert(
                old(self).refs()[old(self).fetched()].0,
                ResourceModel::Image(data@),
            ),
            final(self).map_kv() == old(self).map_kv().push(
                (old(self).refs()[old(self).fetched()].0, ResourceModel::Image(data@)),
            ),
    {
        let n = self.refs.len();
        let url = self.refs[self.next].url().clone();
        proof {
            self.lemma_current_not_stored();
        }
        self.map.insert(url, Resource::Image(data));
        assert(self.next < n);
        self.next += 1;
    }

    /// Fulfils the current (stylesheet or script) reference with its
    /// decoded text and advances: the map gains exactly that resource,
    /// tagged with the reference's kind, under the reference's URL.
    pub fn fulfill_text(&mut self, data: String)
        requires
            old(self).wf(),
            old(self).fetched() < old(self).refs().len(),
            old(self).refs()[old(self).fetched()].1 != ResourceKind::Image,
        ensures
            final(self).wf(),
            final(self).spec_content() == old(self).spec_content(),
            final(self).refs() == old(self).refs(),
            final(self).fetched() == old(self).fetched() + 1,
            final(self).map() == old(self).map().insert(
                old(self).refs()[old(self).fetched()].0,
                text_resource(old(self).refs()[old(self).fetched()].1, data@),
            ),
            final(self).map_kv() == old(self).map_kv().push(
                (
                    old(self).refs()[old(self).fetched()].0,
                    text_resource(old(self).refs()[old(self).fetched()].1, data@),
                ),
            ),
    {
        let r = &self.refs[self.next];
        let url = r.url().clone();
        let resource = match r.kind() {
            ResourceKind::Css => Resource::Css(data),
            ResourceKind::Javascript => Resource::Javascript(data),
            ResourceKind::Image => {
                proof {
                    assert(false);
                }
                Resource::Javascript(data)
            },
        };
        let n = self.refs.len();
        proof {
            self.lemma_current_not_stored();
        }
        self.map.insert(url, resource);
        assert(self.next < n);
        self.next += 1;
    }

    proof fn lemma_current_not_stored(&self)
        requires
            self.wf(),
            self.fetched() < self.refs().len(),
        ensures
            !self.map@.contains_key(self.refs()[self.fetched()].0),
    {
        let k = self.refs()[self.fetched()].0;
        self.map.lemma_contains(k);
        if self.map@.contains_key(k) {
            let i = choose|i: int| 0 <= i < self.map.kv().len() && self.map.kv()[i].0 == k;
            assert(self.map.kv()[i].0 == self.refs()[i].0);
            assert(self.refs()[i].0 != self.refs()[self.fetched()].0);
        }
    }

    /// Whether every reference has been fulfilled.
    pub fn done(&self) -> (b: bool)
        requires
            self.wf(),
        ensures
            b == (self.fetched() == self.refs().len()),
    {
        self.next >= self.refs.len()
    }

    /// The Archive Assembler: wraps the page markup and the completed
    /// resource map into the immutable archive value. The map holds one
    /// entry per extracted reference, under that reference's URL and
    /// tagged with its kind.
    pub fn finish(self) -> (a: PageArchive)
        requires
            self.wf(),
            self.fetched() == self.refs().len(),
        ensures
            a.content@ == self.spec_content(),
            a.resource_map@ == self.map(),
            a.resource_map.wf(),
            a.resource_map.kv() == self.map_kv(),
            a.resource_map.kv().len() == self.refs().len(),
            forall|i: int|
                0 <= i < self.refs().len() ==> (#[trigger] a.resource_map.kv()[i]).0
                    == self.refs()[i].0 && a.resource_map.kv()[i].1.kind() == self.refs()[i].1,
            forall|i: int|
                0 <= i < self.refs().len() ==> a.resource_map@.contains_key(
                    #[trigger] self.refs()[i].0,
                ) && a.resource_map@[self.refs()[i].0].kind() == self.refs()[i].1,
            // never a superset: only referenced URLs are stored
            forall|k: Seq<char>|
                #[trigger] a.resource_map@.contains_key(k) ==> crate::parsing::has_url(
                    self.refs(),
                    k,
                ),
    {
        proof {
            assert forall|i: int| 0 <= i < self.refs().len() implies self.map@.contains_key(
                #[trigger] self.refs()[i].0,
            ) && self.map@[self.refs()[i].0].kind() == self.refs()[i].1 by {
                self.map.lemma_kv_index(i);
            }
            assert forall|k: Seq<char>| #[trigger] self.map@.contains_key(
                k,
            ) implies crate::parsing::has_url(self.refs(), k) by {
                self.map.lemma_contains(k);
                let i = choose|i: int|
                    0 <= i < self.map.kv().len() && self.map.kv()[i].0 == k;
                assert(self.map.kv()[i].0 == self.refs()[i].0);
            }
        }
        PageArchive { content: self.content, resource_map: self.map }
    }
}

} // verus!
