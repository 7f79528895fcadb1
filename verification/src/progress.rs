//! The transfers pane: downloads and uploads in progress, and the
//! unfinished multipart uploads of the open bucket.
use crate::events::FileUpdate;
use crate::listing::MultipartUploadEntry;
use crate::paths::{file_name_of, get_file_name};
use crate::selection::ListSelection;
use crate::size_text::{byte_size_si, format_size_si};
use indexmap::IndexMap;
use vstd::prelude::*;

verus! {

#[verifier::external_type_specification]
#[verifier::external_body]
#[verifier::reject_recursive_types(K)]
#[verifier::reject_recursive_types(V)]
#[verifier::reject_recursive_types(S)]
pub struct ExIndexMap<K, V, S>(IndexMap<K, V, S>);

/// An object in a bucket, the key of a transfer.
#[derive(PartialEq, Eq, Hash, Clone, Debug)]
pub struct KeyWithBucket {
    pub key: String,
    pub bucket: String,
}

impl View for KeyWithBucket {
    type V = (Seq<char>, Seq<char>);

    open spec fn view(&self) -> (Seq<char>, Seq<char>) {
        (self.key@, self.bucket@)
    }
}

impl KeyWithBucket {
    /// A copy of the key.
    pub fn duplicate(&self) -> (r: Self)
        ensures
            r == *self,
    {
        KeyWithBucket { key: self.key.clone(), bucket: self.bucket.clone() }
    }
}

/// The bytes done and the size of one transfer.
#[derive(Debug, Clone, Copy)]
pub struct Progress {
    pub done: u64,
    pub size: u64,
}

impl Progress {
    /// `downloaded` bytes of `size`.
    pub fn new(downloaded: u64, size: u64) -> (r: Self)
        ensures
            r.done == downloaded,
            r.size == size,
    {
        Self { done: downloaded, size }
    }
}

/// The transfers a progress list holds, in the order they started.
pub uninterp spec fn progress_entries(m: IndexMap<KeyWithBucket, Progress>) -> Seq<
    (KeyWithBucket, Progress),
>;

/// The unfinished uploads a list holds, by object key, in listing order.
pub uninterp spec fn upload_entries(m: IndexMap<String, MultipartUploadEntry>) -> Seq<
    (String, MultipartUploadEntry),
>;

/// Where the first entry of `e` with key `k` stands, if there is one.
pub open spec fn key_pos<K: View, V>(e: Seq<(K, V)>, k: K::V) -> Option<int>
    decreases e.len(),
{
    if e.len() == 0 {
        None
    } else if e[0].0@ == k {
        Some(0)
    } else {
        match key_pos(e.drop_first(), k) {
            Some(i) => Some(i + 1),
            None => None,
        }
    }
}

/// No two entries of `e` have the same key.
pub open spec fn keys_unique<K: View, V>(e: Seq<(K, V)>) -> bool {
    forall|i: int, j: int| 0 <= i < j < e.len() ==> e[i].0@ != e[j].0@
}

/// Setting or adding an entry, or removing one, keeps the keys apart.
pub proof fn lemma_keys_unique_kept<K: View, V>(e: Seq<(K, V)>, k: K, v: V, i: int)
    requires
        keys_unique(e),
    ensures
        keys_unique(match key_pos(e, k@) {
            Some(j) => e.update(j, (e[j].0, v)),
            None => e.push((k, v)),
        }),
        0 <= i < e.len() ==> keys_unique(e.remove(i)),
        key_pos(e, k@) matches Some(j) ==> forall|q: int|
            0 <= q < e.len() && #[trigger] e[q].0@ == k@ ==> q == j,
        0 <= i < e.len() ==> key_pos(e, e[i].0@) == Some(i),
{
    lemma_key_pos(e, k@);
    if 0 <= i < e.len() {
        lemma_key_pos(e, e[i].0@);
        let r = e.remove(i);
        assert forall|a: int, b: int| 0 <= a < b < r.len() implies r[a].0@ != r[b].0@ by {
            let a2 = if a < i { a } else { a + 1 };
            let b2 = if b < i { b } else { b + 1 };
            assert(r[a] == e[a2]);
            assert(r[b] == e[b2]);
        }
    }
}

pub proof fn lemma_key_pos<K: View, V>(e: Seq<(K, V)>, k: K::V)
    ensures
        match key_pos(e, k) {
            Some(i) => 0 <= i < e.len() && e[i].0@ == k && forall|j: int|
                0 <= j < i ==> e[j].0@ != k,
            None => forall|j: int| 0 <= j < e.len() ==> e[j].0@ != k,
        },
    decreases e.len(),
{
    if e.len() > 0 {
        lemma_key_pos(e.drop_first(), k);
        if e[0].0@ != k {
            assert forall|j: int| 0 < j < e.len() implies e[j] == e.drop_first()[j - 1] by {}
        }
    }
}

/// An empty progress list (`IndexMap::new`).
#[verifier::external_body]
pub(crate) fn progress_map_new() -> (r: IndexMap<KeyWithBucket, Progress>)
    ensures
        progress_entries(r) == Seq::<(KeyWithBucket, Progress)>::empty(),
{
    IndexMap::new()
}

/// Sets the progress of a transfer (`IndexMap::insert`): a key already
/// there keeps its place and gets the new value; a new key goes last.
#[verifier::external_body]
pub(crate) fn progress_map_insert(m: &mut IndexMap<KeyWithBucket, Progress>, k: KeyWithBucket, v: Progress)
    ensures
        progress_entries(*final(m)) == match key_pos(progress_entries(*old(m)), k@) {
            Some(i) => progress_entries(*old(m)).update(i, (progress_entries(*old(m))[i].0, v)),
            None => progress_entries(*old(m)).push((k, v)),
        },
{
    m.insert(k, v);
}

/// Removes a transfer, keeping the order of the others
/// (`IndexMap::shift_remove`); gives back its progress if it was there.
#[verifier::external_body]
pub(crate) fn progress_map_shift_remove(m: &mut IndexMap<KeyWithBucket, Progress>, k: &KeyWithBucket) -> (r:
    Option<Progress>)
    ensures
        match key_pos(progress_entries(*old(m)), k@) {
            Some(i) => r == Some(progress_entries(*old(m))[i].1) && progress_entries(*final(m))
                == progress_entries(*old(m)).remove(i),
            None => r is None && progress_entries(*final(m)) == progress_entries(*old(m)),
        },
{
    m.shift_remove(k)
}

/// Whether a transfer is in the list (`IndexMap::contains_key`).
#[verifier::external_body]
pub(crate) fn progress_map_contains_key(m: &IndexMap<KeyWithBucket, Progress>, k: &KeyWithBucket) -> (r:
    bool)
    ensures
        r == key_pos(progress_entries(*m), k@) is Some,
{
    m.contains_key(k)
}

/// The progress of a transfer, to change in place (`IndexMap::get_mut`).
#[verifier::external_body]
pub(crate) fn progress_map_get_mut<'a>(
    m: &'a mut IndexMap<KeyWithBucket, Progress>,
    k: &KeyWithBucket,
) -> (r: Option<&'a mut Progress>)
    ensures
        match key_pos(progress_entries(*old(m)), k@) {
            Some(i) => r matches Some(p) && *p == progress_entries(*old(m))[i].1 && progress_entries(
                *final(m),
            ) == progress_entries(*old(m)).update(i, (progress_entries(*old(m))[i].0, *final(p))),
            None => r is None && progress_entries(*final(m)) == progress_entries(*old(m)),
        },
{
    m.get_mut(k)
}

/// The transfer at a position, if there is one (`IndexMap::get_index`).
#[verifier::external_body]
pub(crate) fn progress_map_get_index(m: &IndexMap<KeyWithBucket, Progress>, i: usize) -> (r: Option<
    (&KeyWithBucket, &Progress),
>)
    ensures
        match r {
            Some(e) => i < progress_entries(*m).len() && *e.0 == progress_entries(*m)[i as int].0
                && *e.1 == progress_entries(*m)[i as int].1,
            None => i >= progress_entries(*m).len(),
        },
{
    m.get_index(i)
}

/// The number of transfers (`IndexMap::len`).
#[verifier::external_body]
pub(crate) fn progress_map_len(m: &IndexMap<KeyWithBucket, Progress>) -> (r: usize)
    ensures
        r == progress_entries(*m).len(),
{
    m.len()
}

/// An empty list of unfinished uploads with room for `n`
/// (`IndexMap::with_capacity`).
#[verifier::external_body]
pub(crate) fn upload_map_with_capacity(n: usize) -> (r: IndexMap<String, MultipartUploadEntry>)
    ensures
        upload_entries(r) == Seq::<(String, MultipartUploadEntry)>::empty(),
{
    IndexMap::with_capacity(n)
}

/// Adds an upload under `k` unless the key is there already
/// (`IndexMap::entry(k).or_insert(v)`).
#[verifier::external_body]
pub(crate) fn upload_map_insert_if_absent(
    m: &mut IndexMap<String, MultipartUploadEntry>,
    k: String,
    v: MultipartUploadEntry,
)
    ensures
        upload_entries(*final(m)) == match key_pos(upload_entries(*old(m)), k@) {
            Some(i) => upload_entries(*old(m)),
            None => upload_entries(*old(m)).push((k, v)),
        },
{
    m.entry(k).or_insert(v);
}

/// The upload at a position, if there is one (`IndexMap::get_index`).
#[verifier::external_body]
pub(crate) fn upload_map_get_index(m: &IndexMap<String, MultipartUploadEntry>, i: usize) -> (r: Option<
    (&String, &MultipartUploadEntry),
>)
    ensures
        match r {
            Some(e) => i < upload_entries(*m).len() && *e.0 == upload_entries(*m)[i as int].0
                && *e.1 == upload_entries(*m)[i as int].1,
            None => i >= upload_entries(*m).len(),
        },
{
    m.get_index(i)
}

/// The number of unfinished uploads (`IndexMap::len`).
#[verifier::external_body]
pub(crate) fn upload_map_len(m: &IndexMap<String, MultipartUploadEntry>) -> (r: usize)
    ensures
        r == upload_entries(*m).len(),
{
    m.len()
}


/// Which list the transfers pane shows.
#[derive(Debug, Clone, Copy, PartialEq, Eq, Structural, Default)]
pub enum SelectedProgressTab {
    #[default]
    Downloads,
    Uploads,
    UnfinishedUploads,
}

/// A list of transfers in progress and its selection.
pub struct ProgressListState {
    pub list: IndexMap<KeyWithBucket, Progress>,
    pub state: ListSelection,
}

impl Default for ProgressListState {
    fn default() -> (r: Self)
        ensures
            progress_entries(r.list).len() == 0,
            r.state.selected is None,
            r.state.offset == 0,
    {
        ProgressListState { list: progress_map_new(), state: ListSelection::new() }
    }
}

/// The progress entries after a report on one transfer: a finished or
/// failed transfer leaves the list, another one gets its new counts.
pub open spec fn entries_after_update(
    e: Seq<(KeyWithBucket, Progress)>,
    k: (Seq<char>, Seq<char>),
    result: Result<crate::events::FileProgress, String>,
) -> Seq<(KeyWithBucket, Progress)> {
    match key_pos(e, k) {
        None => e,
        Some(i) => match result {
            Ok(p) => if p.done >= p.size {
                e.remove(i)
            } else {
                e.update(i, (e[i].0, Progress { done: p.done, size: p.size }))
            },
            Err(_) => e.remove(i),
        },
    }
}

/// A report on a transfer keeps the keys of a progress list apart.
pub proof fn lemma_update_keeps_keys_unique(
    e: Seq<(KeyWithBucket, Progress)>,
    k: (Seq<char>, Seq<char>),
    result: Result<crate::events::FileProgress, String>,
)
    requires
        keys_unique(e),
    ensures
        keys_unique(entries_after_update(e, k, result)),
{
    lemma_key_pos(e, k);
    match key_pos(e, k) {
        None => {},
        Some(i) => {
            let v = match result {
                Ok(p) => Progress { done: p.done, size: p.size },
                Err(_) => e[i].1,
            };
            lemma_keys_unique_kept(e, e[i].0, v, i);
        },
    }
}

impl ProgressListState {
    /// The transfers in the list, in order.
    pub open spec fn entries(&self) -> Seq<(KeyWithBucket, Progress)> {
        progress_entries(self.list)
    }

    /// Applies a report on one transfer; gives back the error message to
    /// show when the transfer failed.
    pub fn apply_update(&mut self, update: FileUpdate) -> (r: Option<String>)
        ensures
            final(self).entries() == entries_after_update(
                old(self).entries(),
                (update.key@, update.bucket@),
                update.result,
            ),
            final(self).state == old(self).state,
            keys_unique(old(self).entries()) ==> keys_unique(final(self).entries()),
            r == match update.result {
                Ok(_) => None::<String>,
                Err(e) => Some(e),
            },
    {
        let kb = KeyWithBucket { key: update.key, bucket: update.bucket };
        proof {
            lemma_key_pos(self.entries(), kb@);
            if keys_unique(self.entries()) {
                lemma_update_keeps_keys_unique(self.entries(), kb@, update.result);
            }
        }
        match update.result {
            Ok(p) => {
                if p.done >= p.size {
                    progress_map_shift_remove(&mut self.list, &kb);
                } else {
                    match progress_map_get_mut(&mut self.list, &kb) {
                        Some(d) => {
                            d.done = p.done;
                            d.size = p.size;
                        },
                        None => {},
                    }
                }
                None
            },
            Err(err) => {
                progress_map_shift_remove(&mut self.list, &kb);
                Some(err)
            },
        }
    }

    /// The key of the selected transfer, if a transfer is selected.
    pub fn selected_key(&self) -> (r: Option<KeyWithBucket>)
        ensures
            r == match self.state.selected {
                Some(i) => if i < self.entries().len() {
                    Some(self.entries()[i as int].0)
                } else {
                    None
                },
                None => None,
            },
    {
        match self.state.selected() {
            Some(ind) => match progress_map_get_index(&self.list, ind) {
                Some(entry) => Some(entry.0.duplicate()),
                None => None,
            },
            None => None,
        }
    }

    /// The line shown for each transfer: bucket, file name, bytes done and
    /// size.
    pub fn labels(&self) -> (r: Vec<String>)
        ensures
            r.len() == self.entries().len(),
            forall|i: int|
                0 <= i < r.len() ==> #[trigger] r[i]@ == progress_label(
                    self.entries()[i].0,
                    self.entries()[i].1,
                ),
    {
        let n = progress_map_len(&self.list);
        let mut r: Vec<String> = Vec::new();
        let mut i: usize = 0;
        while i < n
            invariant
                n == self.entries().len(),
                i <= n,
                r.len() == i,
                forall|q: int|
                    0 <= q < i ==> #[trigger] r[q]@ == progress_label(
                        self.entries()[q].0,
                        self.entries()[q].1,
                    ),
            decreases n - i,
        {
            match progress_map_get_index(&self.list, i) {
                Some(entry) => {
                    r.push(make_progress_label(entry.0, entry.1));
                },
                None => {},
            }
            i = i + 1;
        }
        r
    }
}

/// The line of a transfer: "bucket: name: done / size".
pub open spec fn progress_label(k: KeyWithBucket, p: Progress) -> Seq<char> {
    k.bucket@ + seq![':', ' '] + file_name_of(k.key@) + seq![':', ' '] + byte_size_si(p.done)
        + seq![' ', '/', ' '] + byte_size_si(p.size)
}

fn make_progress_label(k: &KeyWithBucket, p: &Progress) -> (r: String)
    ensures
        r@ == progress_label(*k, *p),
{
    let mut s = k.bucket.clone();
    proof {
        reveal_strlit(": ");
        reveal_strlit(" / ");
    }
    s.append(": ");
    let name = match get_file_name(k.key.as_str()) {
        Ok(n) => n,
        Err(_) => k.key.as_str(),
    };
    s.append(name);
    s.append(": ");
    let done = format_size_si(p.done);
    s.append(done.as_str());
    s.append(" / ");
    let size = format_size_si(p.size);
    s.append(size.as_str());
    s
}

/// The unfinished multipart uploads of a bucket, by object key, and the
/// selection among them.
pub struct UnfinishedUploadsListState {
    pub bucket: String,
    pub list: IndexMap<String, MultipartUploadEntry>,
    pub state: ListSelection,
}

/// The unfinished uploads kept from a listing: those with a key, the
/// first of each key, in listing order.
pub open spec fn spec_unfinished(uploads: Seq<MultipartUploadEntry>) -> Seq<(Seq<char>, Option<Seq<char>>)>
    decreases uploads.len(),
{
    if uploads.len() == 0 {
        Seq::empty()
    } else {
        let rest = spec_unfinished(uploads.drop_last());
        match uploads.last().key {
            Some(k) => if rest.map_values(|e: (Seq<char>, Option<Seq<char>>)| e.0).contains(k@) {
                rest
            } else {
                rest.push((k@, upload_id_view(uploads.last())))
            },
            None => rest,
        }
    }
}

/// The upload id of an entry, as characters.
pub open spec fn upload_id_view(u: MultipartUploadEntry) -> Option<Seq<char>> {
    match u.upload_id {
        Some(id) => Some(id@),
        None => None,
    }
}

/// The keys and upload ids of a list of unfinished uploads, in order.
pub open spec fn upload_entries_view(e: Seq<(String, MultipartUploadEntry)>) -> Seq<
    (Seq<char>, Option<Seq<char>>),
> {
    e.map_values(|x: (String, MultipartUploadEntry)| (x.0@, upload_id_view(x.1)))
}

impl Default for UnfinishedUploadsListState {
    fn default() -> (r: Self)
        ensures
            r.bucket@ == Seq::<char>::empty(),
            upload_entries(r.list).len() == 0,
            r.state.selected is None,
            r.state.offset == 0,
    {
        UnfinishedUploadsListState {
            bucket: String::new(),
            list: upload_map_with_capacity(0),
            state: ListSelection::new(),
        }
    }
}

impl UnfinishedUploadsListState {
    /// The unfinished uploads in the list, in order.
    pub open spec fn entries(&self) -> Seq<(String, MultipartUploadEntry)> {
        upload_entries(self.list)
    }

    /// The list of the unfinished uploads of `bucket`: for each key, the
    /// first upload listed with it; uploads without a key are left out.
    pub fn new(bucket: String, list: Vec<MultipartUploadEntry>) -> (r: Self)
        ensures
            r.bucket == bucket,
            upload_entries_view(r.entries()) == spec_unfinished(list@),
            r.state.selected is None,
            r.state.offset == 0,
    {
        let mut map = upload_map_with_capacity(list.len());
        let mut i: usize = 0;
        while i < list.len()
            invariant
                i <= list.len(),
                upload_entries_view(upload_entries(map)) == spec_unfinished(list@.take(i as int)),
            decreases list.len() - i,
        {
            let ghost before = upload_entries(map);
            proof {
                assert(list@.take(i + 1).drop_last() =~= list@.take(i as int));
                assert(list@.take(i + 1).last() == list@[i as int]);
            }
            match &list[i].key {
                Some(key) => {
                    let entry = MultipartUploadEntry {
                        key: list[i].key.clone(),
                        upload_id: list[i].upload_id.clone(),
                    };
                    proof {
                        lemma_key_pos(before, key@);
                        let keys = upload_entries_view(before).map_values(
                            |e: (Seq<char>, Option<Seq<char>>)| e.0,
                        );
                        if keys.contains(key@) {
                            let j = choose|j: int| 0 <= j < keys.len() && keys[j] == key@;
                            assert(before[j].0@ == key@);
                        } else {
                            assert forall|j: int| 0 <= j < before.len() implies before[j].0@ != key@ by {
                                assert(keys[j] == before[j].0@);
                            }
                        }
                    }
                    upload_map_insert_if_absent(&mut map, key.clone(), entry);
                    proof {
                        assert(upload_entries_view(upload_entries(map)) =~= spec_unfinished(
                            list@.take(i + 1),
                        ));
                    }
                },
                None => {},
            }
            i = i + 1;
        }
        assert(list@.take(list.len() as int) =~= list@);
        UnfinishedUploadsListState { bucket, list: map, state: ListSelection::new() }
    }

    /// The object keys of the list, in order.
    pub fn keys(&self) -> (r: Vec<String>)
        ensures
            r.len() == self.entries().len(),
            forall|i: int| 0 <= i < r.len() ==> #[trigger] r[i] == self.entries()[i].0,
    {
        let n = upload_map_len(&self.list);
        let mut r: Vec<String> = Vec::new();
        let mut i: usize = 0;
        while i < n
            invariant
                n == self.entries().len(),
                i <= n,
                r.len() == i,
                forall|q: int| 0 <= q < i ==> #[trigger] r[q] == self.entries()[q].0,
            decreases n - i,
        {
            match upload_map_get_index(&self.list, i) {
                Some(entry) => {
                    r.push(entry.0.clone());
                },
                None => {},
            }
            i = i + 1;
        }
        r
    }
}

/// The transfers pane: which list shows, the three lists, and the focus.
#[derive(Default)]
pub struct FilesProgressWidget {
    pub selected: SelectedProgressTab,
    pub downloads: ProgressListState,
    pub uploads: ProgressListState,
    pub unfinished_uploads: UnfinishedUploadsListState,
    pub is_active: bool,
}

impl FilesProgressWidget {
    /// No transfer is listed twice.
    pub open spec fn wf(&self) -> bool {
        &&& keys_unique(self.downloads.entries())
        &&& keys_unique(self.uploads.entries())
    }

    /// Gives or takes the focus.
    pub fn set_active(&mut self, active: bool)
        ensures
            final(self).is_active == active,
            final(self).selected == old(self).selected,
            final(self).downloads == old(self).downloads,
            final(self).uploads == old(self).uploads,
            final(self).unfinished_uploads == old(self).unfinished_uploads,
    {
        self.is_active = active;
    }

    /// The keys offered at the bottom of the pane: how to cancel or abort
    /// the selected entry of the list shown, when one is selected.
    pub fn controls(&self) -> (r: Option<&'static str>)
        ensures
            r is Some == match self.selected {
                SelectedProgressTab::Downloads => self.downloads.state.selected is Some,
                SelectedProgressTab::Uploads => self.uploads.state.selected is Some,
                SelectedProgressTab::UnfinishedUploads => self.unfinished_uploads.state.selected is Some,
            },
            r matches Some(text) ==> text@ == match self.selected {
                SelectedProgressTab::Downloads => "| Cancel download: Del |"@,
                SelectedProgressTab::Uploads => "| Cancel upload: Del |"@,
                SelectedProgressTab::UnfinishedUploads => "| Abort upload: Del |"@,
            },
    {
        match self.selected {
            SelectedProgressTab::Downloads => if self.downloads.state.selected().is_some() {
                Some("| Cancel download: Del |")
            } else {
                None
            },
            SelectedProgressTab::Uploads => if self.uploads.state.selected().is_some() {
                Some("| Cancel upload: Del |")
            } else {
                None
            },
            SelectedProgressTab::UnfinishedUploads => if self.unfinished_uploads.state.selected().is_some() {
                Some("| Abort upload: Del |")
            } else {
                None
            },
        }
    }
}

/// A report on a transfer touches only that transfer's entry: an
/// unfinished one sets its counts and leaves every other entry where and
/// as it was; a finished or failed one removes just that entry; a report
/// on a transfer not in the list changes nothing.
pub proof fn lemma_report_touches_only_its_entry(
    e: Seq<(KeyWithBucket, Progress)>,
    k: (Seq<char>, Seq<char>),
    i: int,
    result: Result<crate::events::FileProgress, String>,
)
    requires
        keys_unique(e),
    ensures
        0 <= i < e.len() && e[i].0@ == k && result is Ok && result->Ok_0.done < result->Ok_0.size ==> {
            let r = entries_after_update(e, k, result);
            &&& r.len() == e.len()
            &&& r[i].0 == e[i].0
            &&& r[i].1.done == result->Ok_0.done
            &&& r[i].1.size == result->Ok_0.size
            &&& forall|j: int| 0 <= j < e.len() && j != i ==> r[j] == e[j]
        },
        0 <= i < e.len() && e[i].0@ == k && (result is Err || result->Ok_0.done >= result->Ok_0.size)
            ==> entries_after_update(e, k, result) == e.remove(i),
        (forall|j: int| 0 <= j < e.len() ==> e[j].0@ != k) ==> entries_after_update(e, k, result) == e,
{
    lemma_key_pos(e, k);
    if 0 <= i < e.len() && e[i].0@ == k {
        match key_pos(e, k) {
            Some(q) => {
                if q != i {
                    if q < i {
                        assert(e[q].0@ != e[i].0@);
                    } else {
                        assert(e[i].0@ != e[q].0@);
                    }
                }
            },
            None => {},
        }
    }
}

} // verus!
