use vstd::prelude::*;
use crate::parsing::Resource;
use crate::parsing::ResourceMap;
use crate::parsing::ResourceModel;

verus! {

/// What a planned file holds: raw bytes (an image) or text (markup,
/// stylesheet, script).
#[derive(Debug)]
pub enum FileData {
    Binary(Vec<u8>),
    Text(String),
}

/// The mathematical value of a planned file's contents.
pub enum FileDataModel {
    Binary(Seq<u8>),
    Text(Seq<char>),
}

impl View for FileData {
    type V = FileDataModel;

    open spec fn view(&self) -> FileDataModel {
        match self {
            FileData::Binary(b) => FileDataModel::Binary(b@),
            FileData::Text(t) => FileDataModel::Text(t@),
        }
    }
}

/// One file of the archive's planned on-disk layout: a name and its
/// contents. How names are escaped into paths is the persistence
/// collaborator's concern, not the core's.
#[derive(Debug)]
pub struct FileEntry {
    pub name: String,
    pub data: FileData,
}

/// The file contents a fetched resource contributes: its bytes for an
/// image, its text for a stylesheet or a script.
pub open spec fn resource_file_data(r: ResourceModel) -> FileDataModel {
    match r {
        ResourceModel::Image(b) => FileDataModel::Binary(b),
        ResourceModel::Css(t) => FileDataModel::Text(t),
        ResourceModel::Javascript(t) => FileDataModel::Text(t),
    }
}

/// The system's terminal artifact: the page's raw markup plus the keyed
/// collection of its fetched resources. Immutable once constructed; the
/// resource map holds at most the resources the markup references, never
/// more.
#[derive(Debug)]
pub struct PageArchive {
    pub content: String,
    pub resource_map: ResourceMap,
}

impl PageArchive {
    /// Plans the archive's layout on durable storage, for a persistence
    /// collaborator to carry out: the page markup first, under
    /// `index.html`, then one file per stored resource, named by its URL
    /// and in insertion order.
    pub fn write_to_disk(&self) -> (plan: Vec<FileEntry>)
        ensures
            plan@.len() == 1 + self.resource_map.kv().len(),
            plan@[0].name@ == "index.html"@,
            plan@[0].data@ == FileDataModel::Text(self.content@),
            forall|i: int|
                0 <= i < self.resource_map.kv().len() ==> plan@[i + 1].name@
                    == self.resource_map.kv()[i].0 && plan@[i + 1].data@ == resource_file_data(
                    self.resource_map.kv()[i].1,
                ),
    {
        let mut plan: Vec<FileEntry> = Vec::new();
        plan.push(
            FileEntry { name: "index.html".to_owned(), data: FileData::Text(self.content.clone()) },
        );
        let n = self.resource_map.len();
        let mut i: usize = 0;
        while i < n
            invariant
                n == self.resource_map.kv().len(),
                i <= n,
                plan@.len() == 1 + i,
                plan@[0].name@ == "index.html"@,
                plan@[0].data@ == FileDataModel::Text(self.content@),
                forall|q: int|
                    0 <= q < i ==> plan@[q + 1].name@ == self.resource_map.kv()[q].0 && plan@[q
                        + 1].data@ == resource_file_data(self.resource_map.kv()[q].1),
            decreases n - i,
        {
            let entry = self.resource_map.entry_at(i);
            let name = entry.0.clone();
            let data = match &entry.1 {
                Resource::Image(b) => FileData::Binary(b.clone()),
                Resource::Css(t) => FileData::Text(t.clone()),
                Resource::Javascript(t) => FileData::Text(t.clone()),
            };
            plan.push(FileEntry { name, data });
            i += 1;
        }
        plan
    }
}

} // verus!
