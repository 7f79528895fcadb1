//! The main screen: buckets, the file tree, transfers, object details and
//! the input popup, driven by keys.
use crate::buckets::BucketsWidget;
use crate::events::S3ObjectInfo;
use crate::input::{KeyCode, KeyInput};
use crate::listing::S3ObjectsList;
use crate::paths::{file_name_of, get_file_name};
use crate::progress::{
    keys_unique, key_pos, ProgressListState, progress_entries, progress_map_contains_key, progress_map_get_index,
    progress_map_insert, progress_map_shift_remove, upload_map_get_index, FilesProgressWidget,
    KeyWithBucket, Progress, SelectedProgressTab, UnfinishedUploadsListState,
};
use crate::selection::ListSelection;
use crate::text_input::{text_input_step, SingleLineInput};
use crate::arena::arena_get_data;
use crate::tree::Tree;
use crate::tree_build::join_slash;
use crate::tree_node::{Key, NodeType, TreeNode};
use crate::tree_widget::{select_down, select_up, toggled_selected, TreeWidget};
use vstd::prelude::*;

verus! {

/// What the input popup asks for.
#[derive(Debug, Clone, Copy, PartialEq, Eq, Structural)]
pub enum InputWidgetType {
    Upload,
    NewFolder,
    NewBucket,
}

/// The input popup: the field, the folder and bucket it works in, and
/// what it asks for.
pub struct InputWidget<'a> {
    pub input: SingleLineInput<'a>,
    pub directory: String,
    pub bucket: String,
    pub widget_type: InputWidgetType,
}

impl<'a> InputWidget<'a> {
    /// An empty popup asking for `widget_type` in `directory` of `bucket`.
    pub fn new(directory: String, bucket: String, widget_type: InputWidgetType) -> (r: Self)
        ensures
            r.input.wf(),
            r.input.fresh(),
            r.input.text_view() == Seq::<char>::empty(),
            !r.input.active,
            r.directory == directory,
            r.bucket == bucket,
            r.widget_type == widget_type,
    {
        Self { input: SingleLineInput::default(), directory, bucket, widget_type }
    }

    /// The title of the popup.
    pub fn title(&self) -> (r: &'static str)
        ensures
            r@ == match self.widget_type {
                InputWidgetType::Upload => "Enter path to the file to upload"@,
                InputWidgetType::NewFolder => "Enter new folder name"@,
                InputWidgetType::NewBucket => "Enter new bucket name"@,
            },
    {
        match self.widget_type {
            InputWidgetType::Upload => "Enter path to the file to upload",
            InputWidgetType::NewFolder => "Enter new folder name",
            InputWidgetType::NewBucket => "Enter new bucket name",
        }
    }
}

/// The pane that has the focus.
#[derive(Debug, Default, PartialEq, Eq, Copy, Clone, Structural)]
pub enum ActiveWindow {
    #[default]
    Buckets,
    FileTree,
    FilesProgress,
}

/// What the caller does after a key on the main screen.
#[derive(Debug)]
pub enum MainAction {
    /// Nothing.
    Nothing,
    /// Upload the file at `path` to `key` in `bucket`; its progress entry
    /// is already in the uploads.
    Upload { bucket: String, key: String, path: String },
    /// Create the folder `key` in `bucket`; on success list the bucket
    /// again and call `close_input_popup`.
    CreateFolder { bucket: String, key: String },
    /// Create the bucket `name`; on success list the buckets and call
    /// `bucket_created`.
    CreateBucket { name: String },
    /// List the objects of `bucket`.
    ListObjects { bucket: String },
    /// Download `key` from `bucket`; its progress entry is already in the
    /// downloads.
    Download { bucket: String, key: String },
    /// Fetch the details of `key` in `bucket`.
    ObjectInfo { bucket: String, key: String },
    /// Delete `key` from `bucket`, then list the bucket again.
    DeleteObject { bucket: String, key: String },
    /// Stop the download of this object and remove its partial file; its
    /// entry already left the downloads.
    CancelDownload(KeyWithBucket),
    /// Stop the upload of this object; its entry already left the uploads.
    CancelUpload(KeyWithBucket),
    /// Abort the unfinished multipart upload `upload_id` of `key` in
    /// `bucket`.
    AbortUpload { bucket: String, key: String, upload_id: String },
}

/// The main screen.
pub struct MainMenuWidget<'a> {
    pub active_window: ActiveWindow,
    pub buckets: BucketsWidget,
    pub tree: TreeWidget,
    pub files_progress: FilesProgressWidget,
    pub object_info: Option<S3ObjectInfo>,
    pub input_popup: Option<InputWidget<'a>>,
}

/// `name` inside `dir`: just `name` at the top.
pub open spec fn joined_key(dir: Seq<char>, name: Seq<char>) -> Seq<char> {
    if dir.len() == 0 {
        name
    } else {
        dir + seq!['/'] + name
    }
}

/// The entries of a progress list after setting `k` to `v`: in place when
/// the key is there, at the end otherwise.
pub open spec fn entries_insert(
    e: Seq<(KeyWithBucket, Progress)>,
    k: KeyWithBucket,
    v: Progress,
) -> Seq<(KeyWithBucket, Progress)> {
    match key_pos(e, k@) {
        Some(i) => e.update(i, (e[i].0, v)),
        None => e.push((k, v)),
    }
}

/// A transfer that starts and then reports that it is done, or that it
/// failed, leaves its list as it was before it started.
pub proof fn lemma_finished_transfer_leaves(
    e: Seq<(KeyWithBucket, Progress)>,
    kb: KeyWithBucket,
    result: Result<crate::events::FileProgress, String>,
)
    requires
        key_pos(e, kb@) is None,
        result matches Ok(p) ==> p.done >= p.size,
    ensures
        crate::progress::entries_after_update(
            entries_insert(e, kb, Progress { done: 0, size: 0 }),
            kb@,
            result,
        ) == e,
{
    let e2 = e.push((kb, Progress { done: 0, size: 0 }));
    crate::progress::lemma_key_pos(e, kb@);
    crate::progress::lemma_key_pos(e2, kb@);
    assert(e2[e.len() as int].0@ == kb@);
    assert(key_pos(e2, kb@) == Some(e.len() as int)) by {
        match key_pos(e2, kb@) {
            Some(i) => {
                if i < e.len() {
                    assert(e2[i] == e[i]);
                }
            },
            None => {},
        }
    }
    assert(e2.remove(e.len() as int) =~= e);
}

fn join_key(dir: &String, name: &str) -> (r: String)
    ensures
        r@ == joined_key(dir@, name@),
{
    if dir.unicode_len() == 0 {
        String::from_str(name)
    } else {
        let mut k = dir.clone();
        k.append("/");
        proof {
            reveal_strlit("/");
        }
        k.append(name);
        k
    }
}

impl<'a> MainMenuWidget<'a> {
    /// The screen is usable: the tree is well formed, no transfer is
    /// listed twice, the popup's field is usable.
    pub open spec fn wf(&self) -> bool {
        &&& self.tree.wf()
        &&& self.files_progress.wf()
        &&& self.input_popup matches Some(p) ==> p.input.wf()
    }

    /// `m` is the main screen as it opens over `buckets`: the bucket pane
    /// focused with nothing selected, no tree, no details, no popup, and
    /// empty transfer lists with the downloads shown.
    pub open spec fn opened_over(m: Self, buckets: Vec<String>) -> bool {
        &&& m.wf()
        &&& m.active_window == ActiveWindow::Buckets
        &&& m.buckets.list == buckets
        &&& m.buckets.state == ListSelection { selected: None, offset: 0 }
        &&& m.buckets.is_active
        &&& m.tree.tree is None
        &&& !m.tree.is_active
        &&& m.object_info is None
        &&& m.input_popup is None
        &&& m.files_progress.selected == SelectedProgressTab::Downloads
        &&& !m.files_progress.is_active
        &&& m.files_progress.downloads.entries().len() == 0
        &&& m.files_progress.downloads.state == ListSelection { selected: None, offset: 0 }
        &&& m.files_progress.uploads.entries().len() == 0
        &&& m.files_progress.uploads.state == ListSelection { selected: None, offset: 0 }
        &&& m.files_progress.unfinished_uploads.entries().len() == 0
        &&& m.files_progress.unfinished_uploads.bucket@ == Seq::<char>::empty()
        &&& m.files_progress.unfinished_uploads.state == ListSelection { selected: None, offset: 0 }
    }

    /// The main screen over the buckets `buckets`, the bucket pane focused.
    pub fn new(buckets: Vec<String>) -> (r: Self)
        ensures
            Self::opened_over(r, buckets),
    {
        MainMenuWidget {
            active_window: ActiveWindow::Buckets,
            buckets: BucketsWidget::new(buckets),
            tree: TreeWidget { tree: None, is_active: false },
            files_progress: FilesProgressWidget {
                selected: SelectedProgressTab::Downloads,
                downloads: Default::default(),
                uploads: Default::default(),
                unfinished_uploads: Default::default(),
                is_active: false,
            },
            object_info: None,
            input_popup: None,
        }
    }

    /// `n` is `o` showing the listing `list`: the tree built from its
    /// objects, nothing selected in it, and its unfinished uploads.
    pub open spec fn shows_listing(o: Self, n: Self, list: S3ObjectsList) -> bool {
        &&& n.tree.tree matches Some(t) && t.bucket == list.bucket
            && crate::tree_build::built_from(t.nodes(), t.root, list.objects@)
            && t.selected is None && t.offset == 0
        &&& n.tree.active() == o.tree.active()
        &&& n.files_progress.unfinished_uploads.bucket == list.bucket
        &&& n.files_progress.unfinished_uploads.state == ListSelection { selected: None, offset: 0 }
        &&& crate::progress::upload_entries_view(n.files_progress.unfinished_uploads.entries())
            == crate::progress::spec_unfinished(list.uploads@)
        &&& n.active_window == o.active_window
        &&& n.buckets == o.buckets
        &&& n.files_progress.downloads == o.files_progress.downloads
        &&& n.files_progress.uploads == o.files_progress.uploads
        &&& n.files_progress.selected == o.files_progress.selected
        &&& n.files_progress.is_active == o.files_progress.is_active
        &&& n.input_popup == o.input_popup
        &&& n.object_info == o.object_info
    }

    /// Shows a bucket's listing: its tree and its unfinished uploads.
    pub fn set_bucket_objects(&mut self, list: S3ObjectsList)
        requires
            old(self).wf(),
            forall|k: int| 0 <= k < list.objects.len() ==> (#[trigger] list.objects[k]).key is Some,
        ensures
            final(self).wf(),
            Self::shows_listing(*old(self), *final(self), list),
    {
        self.tree.set_tree(list.bucket.clone(), list.objects);
        self.files_progress.unfinished_uploads = UnfinishedUploadsListState::new(
            list.bucket,
            list.uploads,
        );
    }

    /// Closes the input popup.
    pub fn close_input_popup(&mut self)
        requires
            old(self).wf(),
        ensures
            final(self).wf(),
            final(self).input_popup is None,
            final(self).active_window == old(self).active_window,
            final(self).buckets == old(self).buckets,
            final(self).tree == old(self).tree,
            final(self).files_progress == old(self).files_progress,
            final(self).object_info == old(self).object_info,
    {
        self.input_popup = None;
    }

    /// Shows the buckets listed after one was created, and closes the
    /// popup.
    pub fn bucket_created(&mut self, buckets: Vec<String>)
        requires
            old(self).wf(),
        ensures
            final(self).wf(),
            *final(self) == (MainMenuWidget {
                buckets: final(self).buckets,
                input_popup: None,
                ..*old(self)
            }),
            final(self).buckets.list == buckets,
            final(self).buckets.state == (ListSelection { selected: None, offset: 0 }),
            final(self).buckets.is_active,
    {
        self.buckets = BucketsWidget::new(buckets);
        self.input_popup = None;
    }
}


/// Only the fields flagged may differ between `o` and `n`.
pub open spec fn only_changed(
    o: MainMenuWidget<'_>,
    n: MainMenuWidget<'_>,
    active: bool,
    buckets: bool,
    tree: bool,
    progress: bool,
    popup: bool,
) -> bool {
    &&& !active ==> n.active_window == o.active_window
    &&& !buckets ==> n.buckets == o.buckets
    &&& !tree ==> n.tree == o.tree
    &&& !progress ==> n.files_progress == o.files_progress
    &&& !popup ==> n.input_popup == o.input_popup
    &&& n.object_info == o.object_info
}

/// `p` is a new popup of type `ty` over `directory` and `bucket`.
pub open spec fn new_popup(
    p: InputWidget<'_>,
    ty: InputWidgetType,
    directory: Seq<char>,
    bucket: Seq<char>,
) -> bool {
    &&& p.input.wf()
    &&& p.input.fresh()
    &&& p.input.text_view() == Seq::<char>::empty()
    &&& p.widget_type == ty
    &&& p.directory@ == directory
    &&& p.bucket@ == bucket
}

impl<'a> MainMenuWidget<'a> {
    /// What a key does while the input popup is open: Enter acts on what
    /// was typed (an upload starts and the popup closes; a folder or a
    /// bucket is asked for), Esc closes the popup, another key edits.
    pub open spec fn popup_step(
        o: MainMenuWidget<'a>,
        n: MainMenuWidget<'a>,
        key: KeyInput,
        r: Result<MainAction, String>,
    ) -> bool {
        let p = o.input_popup->0;
        let text = p.input.text_view();
        match key.code {
            KeyCode::Enter => match p.widget_type {
                InputWidgetType::Upload => {
                    let k = joined_key(p.directory@, file_name_of(text));
                    &&& r matches Ok(MainAction::Upload { bucket, key, path }) && bucket@ == p.bucket@
                        && key@ == k && path@ == text
                    &&& n.input_popup is None
                    &&& exists|kb: KeyWithBucket|
                        kb@ == (k, p.bucket@) && n.files_progress.uploads.entries()
                            == entries_insert(
                            o.files_progress.uploads.entries(),
                            kb,
                            Progress { done: 0, size: 0 },
                        )
                    &&& n.files_progress.uploads.state == o.files_progress.uploads.state
                    &&& n.files_progress.downloads == o.files_progress.downloads
                    &&& n.files_progress.unfinished_uploads == o.files_progress.unfinished_uploads
                    &&& n.files_progress.selected == o.files_progress.selected
                    &&& n.files_progress.is_active == o.files_progress.is_active
                    &&& only_changed(o, n, false, false, false, true, true)
                },
                InputWidgetType::NewFolder => {
                    &&& r matches Ok(MainAction::CreateFolder { bucket, key }) && bucket@
                        == p.bucket@ && key@ == joined_key(p.directory@, text)
                    &&& n == o
                },
                InputWidgetType::NewBucket => {
                    &&& r matches Ok(MainAction::CreateBucket { name }) && name@ == text
                    &&& n == o
                },
            },
            KeyCode::Esc => {
                &&& r matches Ok(MainAction::Nothing)
                &&& n.input_popup is None
                &&& only_changed(o, n, false, false, false, false, true)
            },
            _ => {
                &&& r matches Ok(MainAction::Nothing)
                &&& n.input_popup matches Some(p2) && p2.directory == p.directory && p2.bucket
                    == p.bucket && p2.widget_type == p.widget_type && exists|h: bool|
                    text_input_step(p.input, p2.input, key, h)
                &&& only_changed(o, n, false, false, false, false, true)
            },
        }
    }

    /// Handles a key while the input popup is open.
    fn handle_popup_key(&mut self, key: KeyInput) -> (r: Result<MainAction, String>)
        requires
            old(self).wf(),
            old(self).input_popup is Some,
        ensures
            final(self).wf(),
            Self::popup_step(*old(self), *final(self), key, r),
    {
        let ghost o = *self;
        match &mut self.input_popup {
            Some(popup) => {
                match key.code {
                    KeyCode::Enter => {
                        match popup.widget_type {
                            InputWidgetType::Upload => {
                                let dir = popup.directory.clone();
                                let path = popup.input.text().clone();
                                let file_name = match get_file_name(path.as_str()) {
                                    Ok(n) => n,
                                    Err(e) => {
                                        return Err(e);
                                    },
                                };
                                let file_key = join_key(&dir, file_name);
                                let bucket = popup.bucket.clone();
                                let key_clone = file_key.clone();
                                let kb = KeyWithBucket { key: file_key, bucket: popup.bucket.clone() };
                                let ghost kbg = kb;
                                proof {
                                    crate::progress::lemma_keys_unique_kept(
                                        self.files_progress.uploads.entries(),
                                        kb,
                                        Progress { done: 0, size: 0 },
                                        0,
                                    );
                                }
                                progress_map_insert(
                                    &mut self.files_progress.uploads.list,
                                    kb,
                                    Progress { done: 0, size: 0 },
                                );
                                self.input_popup = None;
                                assert(kbg@ == (
                                    joined_key(o.input_popup->0.directory@, file_name_of(o.input_popup->0.input.text_view())),
                                    o.input_popup->0.bucket@,
                                ));
                                assert(self.files_progress.uploads.entries() == entries_insert(
                                    o.files_progress.uploads.entries(),
                                    kbg,
                                    Progress { done: 0, size: 0 },
                                ));
                                assert(only_changed(o, *self, false, false, false, true, true));
                                assert(key_clone@ == joined_key(o.input_popup->0.directory@, file_name_of(o.input_popup->0.input.text_view())));
                                assert(bucket@ == o.input_popup->0.bucket@);
                                assert(path@ == o.input_popup->0.input.text_view());
                                return Ok(MainAction::Upload { bucket, key: key_clone, path });
                            },
                            InputWidgetType::NewFolder => {
                                let key = join_key(&popup.directory, popup.input.text().as_str());
                                return Ok(
                                    MainAction::CreateFolder { bucket: popup.bucket.clone(), key },
                                );
                            },
                            InputWidgetType::NewBucket => {
                                return Ok(MainAction::CreateBucket { name: popup.input.text().clone() });
                            },
                        }
                    },
                    KeyCode::Esc => {
                        self.input_popup = None;
                    },
                    _ => {
                        let h = popup.input.handle_text_input(key);
                        assert(text_input_step(o.input_popup->0.input, popup.input, key, h));
                    },
                }
            },
            None => {},
        }
        Ok(MainAction::Nothing)
    }
}


/// The node selected in the tree, when there is a tree, a selection, and
/// the selected node is live.
pub open spec fn selected_node(t: TreeWidget) -> Option<TreeNode> {
    match t.tree {
        Some(tr) => match tr.selected {
            Some(id) => if tr.nodes().contains_key(id) {
                Some(tr.nodes()[id].0)
            } else {
                None
            },
            None => None,
        },
        None => None,
    }
}

impl<'a> MainMenuWidget<'a> {
    /// What a key does on the bucket pane: Up and Down move, Enter lists
    /// the selected bucket, 'u' and 'f' open a popup to upload to or make a
    /// folder in it, 'b' one to make a bucket.
    pub open spec fn buckets_step(
        o: MainMenuWidget<'a>,
        n: MainMenuWidget<'a>,
        key: KeyInput,
        r: Result<MainAction, String>,
    ) -> bool {
        let sel = o.buckets.state.selected;
        let list = o.buckets.list@;
        match key.code {
            KeyCode::Up => {
                &&& r matches Ok(MainAction::Nothing)
                &&& n.buckets.state == o.buckets.state.moved_previous()
                &&& n.buckets.list == o.buckets.list
                &&& n.buckets.is_active == o.buckets.is_active
                &&& only_changed(o, n, false, true, false, false, false)
            },
            KeyCode::Down => {
                &&& r matches Ok(MainAction::Nothing)
                &&& n.buckets.state == o.buckets.state.moved_next()
                &&& n.buckets.list == o.buckets.list
                &&& n.buckets.is_active == o.buckets.is_active
                &&& only_changed(o, n, false, true, false, false, false)
            },
            KeyCode::Enter => {
                &&& n == o
                &&& match sel {
                    Some(i) => if i < list.len() {
                        r matches Ok(MainAction::ListObjects { bucket }) && bucket@ == list[i as int]@
                    } else {
                        r matches Ok(MainAction::Nothing)
                    },
                    None => r matches Ok(MainAction::Nothing),
                }
            },
            KeyCode::Char('u') => {
                &&& r matches Ok(MainAction::Nothing)
                &&& only_changed(o, n, false, false, false, false, true)
                &&& match sel {
                    Some(i) => n.input_popup matches Some(p) && new_popup(
                        p,
                        InputWidgetType::Upload,
                        Seq::empty(),
                        list[i as int]@,
                    ),
                    None => n == o,
                }
            },
            KeyCode::Char('b') => {
                &&& r matches Ok(MainAction::Nothing)
                &&& only_changed(o, n, false, false, false, false, true)
                &&& n.input_popup matches Some(p) && new_popup(
                    p,
                    InputWidgetType::NewBucket,
                    Seq::empty(),
                    Seq::empty(),
                )
            },
            KeyCode::Char('f') => {
                &&& r matches Ok(MainAction::Nothing)
                &&& only_changed(o, n, false, false, false, false, true)
                &&& match sel {
                    Some(i) => if i < list.len() {
                        n.input_popup matches Some(p) && new_popup(
                            p,
                            InputWidgetType::NewFolder,
                            Seq::empty(),
                            list[i as int]@,
                        )
                    } else {
                        n == o
                    },
                    None => n == o,
                }
            },
            _ => r matches Ok(MainAction::Nothing) && n == o,
        }
    }

    /// Handles a key on the bucket pane.
    fn handle_buckets_key(&mut self, key: KeyInput) -> (r: Result<MainAction, String>)
        requires
            old(self).wf(),
            key.code == KeyCode::Char('u') ==> (old(self).buckets.state.selected matches Some(i)
                ==> i < old(self).buckets.list.len()),
        ensures
            final(self).wf(),
            Self::buckets_step(*old(self), *final(self), key, r),
    {
        match key.code {
            KeyCode::Up => self.buckets.state.select_previous(),
            KeyCode::Down => self.buckets.state.select_next(),
            KeyCode::Enter => {
                match self.buckets.state.selected() {
                    Some(ind) => {
                        if ind < self.buckets.list.len() {
                            return Ok(MainAction::ListObjects { bucket: self.buckets.list[ind].clone() });
                        }
                    },
                    None => {},
                }
            },
            KeyCode::Char('u') => {
                match self.buckets.state.selected() {
                    Some(ind) => {
                        let bucket = self.buckets.list[ind].clone();
                        self.input_popup = Some(
                            InputWidget::new(String::new(), bucket, InputWidgetType::Upload),
                        );
                    },
                    None => {},
                }
            },
            KeyCode::Char('b') => {
                self.input_popup = Some(
                    InputWidget::new(String::new(), String::new(), InputWidgetType::NewBucket),
                );
            },
            KeyCode::Char('f') => {
                match self.buckets.state.selected() {
                    Some(ind) => {
                        if ind < self.buckets.list.len() {
                            let bucket = self.buckets.list[ind].clone();
                            self.input_popup = Some(
                                InputWidget::new(String::new(), bucket, InputWidgetType::NewFolder),
                            );
                        }
                    },
                    None => {},
                }
            },
            _ => {},
        }
        Ok(MainAction::Nothing)
    }
}


/// The object key of the selected node, when it is a file.
pub open spec fn selected_file_key(t: TreeWidget) -> Option<Seq<char>> {
    match selected_node(t) {
        Some(node) => match node.node_type {
            NodeType::File(Key(k)) => Some(k@),
            NodeType::Dir(_) => None,
        },
        None => None,
    }
}

/// The path of the selected node, when it is a folder.
pub open spec fn selected_dir_path(t: TreeWidget) -> Option<Seq<char>> {
    match selected_node(t) {
        Some(node) => match node.node_type {
            NodeType::Dir(_) => Some(join_slash(t.tree->0.path_of(t.tree->0.selected->0))),
            NodeType::File(_) => None,
        },
        None => None,
    }
}

impl<'a> MainMenuWidget<'a> {
    /// What a key does on the tree pane: Up and Down move, Enter opens or
    /// closes the selected folder; on a file, 'd' starts a download unless
    /// one runs, 'i' asks for its details, Delete deletes it; on a folder,
    /// 'u' and 'f' open a popup to upload to or make a folder in it.
    pub open spec fn tree_step(
        o: MainMenuWidget<'a>,
        n: MainMenuWidget<'a>,
        key: KeyInput,
        r: Result<MainAction, String>,
    ) -> bool {
        let bucket = o.tree.tree->0.bucket@;
        match key.code {
            KeyCode::Up => {
                &&& r matches Ok(MainAction::Nothing)
                &&& n.tree.tree == match o.tree.tree {
                    None => None,
                    Some(t) => Some(Tree { selected: select_up(t.visible(), t.selected), ..t }),
                }
                &&& n.tree.active() == o.tree.active()
                &&& only_changed(o, n, false, false, true, false, false)
            },
            KeyCode::Down => {
                &&& r matches Ok(MainAction::Nothing)
                &&& n.tree.tree == match o.tree.tree {
                    None => None,
                    Some(t) => Some(Tree { selected: select_down(t.visible(), t.selected), ..t }),
                }
                &&& n.tree.active() == o.tree.active()
                &&& only_changed(o, n, false, false, true, false, false)
            },
            KeyCode::Enter => {
                &&& r matches Ok(MainAction::Nothing)
                &&& toggled_selected(o.tree, n.tree)
                &&& only_changed(o, n, false, false, true, false, false)
            },
            KeyCode::Char('d') => match selected_file_key(o.tree) {
                Some(k) => if key_pos(o.files_progress.downloads.entries(), (k, bucket)) is None {
                    &&& r matches Ok(MainAction::Download { bucket: b, key: kk }) && b@ == bucket
                        && kk@ == k
                    &&& exists|kb: KeyWithBucket|
                        kb@ == (k, bucket) && n.files_progress.downloads.entries()
                            == o.files_progress.downloads.entries().push(
                            (kb, Progress { done: 0, size: 0 }),
                        )
                    &&& n.files_progress.downloads.state == o.files_progress.downloads.state
                    &&& n.files_progress.uploads == o.files_progress.uploads
                    &&& n.files_progress.unfinished_uploads == o.files_progress.unfinished_uploads
                    &&& n.files_progress.selected == o.files_progress.selected
                    &&& n.files_progress.is_active == o.files_progress.is_active
                    &&& only_changed(o, n, false, false, false, true, false)
                } else {
                    r matches Ok(MainAction::Nothing) && n == o
                },
                None => r matches Ok(MainAction::Nothing) && n == o,
            },
            KeyCode::Char('i') => n == o && match selected_file_key(o.tree) {
                Some(k) => r matches Ok(MainAction::ObjectInfo { bucket: b, key: kk }) && b@
                    == bucket && kk@ == k,
                None => r matches Ok(MainAction::Nothing),
            },
            KeyCode::Delete => n == o && match selected_file_key(o.tree) {
                Some(k) => r matches Ok(MainAction::DeleteObject { bucket: b, key: kk }) && b@
                    == bucket && kk@ == k,
                None => r matches Ok(MainAction::Nothing),
            },
            KeyCode::Char('u') => r matches Ok(MainAction::Nothing) && match selected_dir_path(
                o.tree,
            ) {
                Some(dir) => n.input_popup matches Some(p) && new_popup(
                    p,
                    InputWidgetType::Upload,
                    dir,
                    bucket,
                ) && only_changed(o, n, false, false, false, false, true),
                None => n == o,
            },
            KeyCode::Char('f') => r matches Ok(MainAction::Nothing) && match selected_dir_path(
                o.tree,
            ) {
                Some(dir) => n.input_popup matches Some(p) && new_popup(
                    p,
                    InputWidgetType::NewFolder,
                    dir,
                    bucket,
                ) && only_changed(o, n, false, false, false, false, true),
                None => n == o,
            },
            _ => r matches Ok(MainAction::Nothing) && n == o,
        }
    }

    /// Handles a key on the tree pane.
    fn handle_tree_key(&mut self, key: KeyInput) -> (r: Result<MainAction, String>)
        requires
            old(self).wf(),
        ensures
            final(self).wf(),
            Self::tree_step(*old(self), *final(self), key, r),
    {
        let ghost o = *self;
        match key.code {
            KeyCode::Up => {
                self.tree.key_up();
                return Ok(MainAction::Nothing);
            },
            KeyCode::Down => {
                self.tree.key_down();
                return Ok(MainAction::Nothing);
            },
            KeyCode::Enter => {
                self.tree.toggle_selected();
                return Ok(MainAction::Nothing);
            },
            _ => {},
        }
        let tree = match &self.tree.tree {
            Some(t) => t,
            None => {
                return Ok(MainAction::Nothing);
            },
        };
        let sel_id = match tree.selected {
            Some(s) => s,
            None => {
                return Ok(MainAction::Nothing);
            },
        };
        let node = match arena_get_data(&tree.arena, sel_id) {
            Some(n) => n,
            None => {
                return Ok(MainAction::Nothing);
            },
        };
        match &node.node_type {
            NodeType::File(Key(file_key)) => match key.code {
                KeyCode::Char('d') => {
                    let kb = KeyWithBucket { key: file_key.clone(), bucket: tree.bucket.clone() };
                    if !progress_map_contains_key(&self.files_progress.downloads.list, &kb) {
                        let action = MainAction::Download {
                            bucket: tree.bucket.clone(),
                            key: file_key.clone(),
                        };
                        let ghost kbg = kb;
                        proof {
                            crate::progress::lemma_keys_unique_kept(
                                self.files_progress.downloads.entries(),
                                kb,
                                Progress { done: 0, size: 0 },
                                0,
                            );
                        }
                        progress_map_insert(
                            &mut self.files_progress.downloads.list,
                            kb,
                            Progress { done: 0, size: 0 },
                        );
                        assert(self.files_progress.downloads.entries()
                            == o.files_progress.downloads.entries().push(
                            (kbg, Progress { done: 0, size: 0 }),
                        ));
                        return Ok(action);
                    }
                    Ok(MainAction::Nothing)
                },
                KeyCode::Char('i') => Ok(
                    MainAction::ObjectInfo { bucket: tree.bucket.clone(), key: file_key.clone() },
                ),
                KeyCode::Delete => Ok(
                    MainAction::DeleteObject { bucket: tree.bucket.clone(), key: file_key.clone() },
                ),
                _ => Ok(MainAction::Nothing),
            },
            NodeType::Dir(_) => match key.code {
                KeyCode::Char('u') => {
                    let dir = tree.get_path(&sel_id);
                    let bucket = tree.bucket.clone();
                    self.input_popup = Some(InputWidget::new(dir, bucket, InputWidgetType::Upload));
                    Ok(MainAction::Nothing)
                },
                KeyCode::Char('f') => {
                    let dir = tree.get_path(&sel_id);
                    let bucket = tree.bucket.clone();
                    self.input_popup = Some(
                        InputWidget::new(dir, bucket, InputWidgetType::NewFolder),
                    );
                    Ok(MainAction::Nothing)
                },
                _ => Ok(MainAction::Nothing),
            },
        }
    }
}


/// What a key does on a list of transfers: Up and Down move; Delete
/// takes the selected transfer out of the list, and `cancel` is the
/// action that stops it.
pub open spec fn transfer_list_step(
    o: ProgressListState,
    n: ProgressListState,
    key: KeyInput,
    r: Result<MainAction, String>,
    cancel_download: bool,
) -> bool {
    match key.code {
        KeyCode::Up => r matches Ok(MainAction::Nothing) && n.state == o.state.moved_previous() && n.list
            == o.list,
        KeyCode::Down => r matches Ok(MainAction::Nothing) && n.state == o.state.moved_next() && n.list
            == o.list,
        KeyCode::Delete => match o.state.selected {
            Some(i) => if i < o.entries().len() {
                &&& n.state == o.state
                &&& n.entries() == o.entries().remove(i as int)
                &&& if cancel_download {
                    r matches Ok(MainAction::CancelDownload(kb)) && kb@ == o.entries()[i as int].0@
                } else {
                    r matches Ok(MainAction::CancelUpload(kb)) && kb@ == o.entries()[i as int].0@
                }
            } else {
                r matches Ok(MainAction::Nothing) && n == o
            },
            None => r matches Ok(MainAction::Nothing) && n == o,
        },
        _ => r matches Ok(MainAction::Nothing) && n == o,
    }
}

/// Handles a key on a list of transfers.
fn handle_transfer_list_key(
    list: &mut ProgressListState,
    key: KeyInput,
    cancel_download: bool,
) -> (r: Result<MainAction, String>)
    requires
        keys_unique(old(list).entries()),
    ensures
        keys_unique(final(list).entries()),
        transfer_list_step(*old(list), *final(list), key, r, cancel_download),
{
    match key.code {
        KeyCode::Up => list.state.select_previous(),
        KeyCode::Down => list.state.select_next(),
        KeyCode::Delete => {
            match list.state.selected() {
                Some(ind) => {
                    match progress_map_get_index(&list.list, ind) {
                        Some(entry) => {
                            let kb = entry.0.duplicate();
                            proof {
                                crate::progress::lemma_keys_unique_kept(
                                    list.entries(),
                                    kb,
                                    *entry.1,
                                    ind as int,
                                );
                            }
                            match progress_map_shift_remove(&mut list.list, &kb) {
                                Some(_) => {
                                    return if cancel_download {
                                        Ok(MainAction::CancelDownload(kb))
                                    } else {
                                        Ok(MainAction::CancelUpload(kb))
                                    };
                                },
                                None => {},
                            }
                        },
                        None => {},
                    }
                },
                None => {},
            }
        },
        _ => {},
    }
    Ok(MainAction::Nothing)
}

impl<'a> MainMenuWidget<'a> {
    /// What a key does on the transfers pane, for the list it shows: on
    /// downloads and uploads see `transfer_list_step`; on unfinished
    /// uploads, Up and Down move and Delete asks to abort the selected
    /// upload, which fails when it has no id.
    pub open spec fn progress_step(
        o: MainMenuWidget<'a>,
        n: MainMenuWidget<'a>,
        key: KeyInput,
        r: Result<MainAction, String>,
    ) -> bool {
        let fo = o.files_progress;
        let fnew = n.files_progress;
        &&& only_changed(o, n, false, false, false, true, false)
        &&& fnew.selected == fo.selected
        &&& fnew.is_active == fo.is_active
        &&& match fo.selected {
            SelectedProgressTab::Downloads => {
                &&& transfer_list_step(fo.downloads, fnew.downloads, key, r, true)
                &&& fnew.uploads == fo.uploads
                &&& fnew.unfinished_uploads == fo.unfinished_uploads
            },
            SelectedProgressTab::Uploads => {
                &&& transfer_list_step(fo.uploads, fnew.uploads, key, r, false)
                &&& fnew.downloads == fo.downloads
                &&& fnew.unfinished_uploads == fo.unfinished_uploads
            },
            SelectedProgressTab::UnfinishedUploads => {
                let u = fo.unfinished_uploads;
                &&& fnew.downloads == fo.downloads
                &&& fnew.uploads == fo.uploads
                &&& fnew.unfinished_uploads.bucket == u.bucket
                &&& fnew.unfinished_uploads.list == u.list
                &&& match key.code {
                    KeyCode::Up => r matches Ok(MainAction::Nothing)
                        && fnew.unfinished_uploads.state == u.state.moved_previous(),
                    KeyCode::Down => r matches Ok(MainAction::Nothing)
                        && fnew.unfinished_uploads.state == u.state.moved_next(),
                    KeyCode::Delete => fnew.unfinished_uploads.state == u.state && match u.state.selected {
                        Some(i) => if i < u.entries().len() {
                            match u.entries()[i as int].1.upload_id {
                                Some(id) => r matches Ok(
                                    MainAction::AbortUpload { bucket, key, upload_id },
                                ) && bucket@ == u.bucket@ && key@ == u.entries()[i as int].0@
                                    && upload_id@ == id@,
                                None => r is Err && r->Err_0@ == "Could not get upload ID"@,
                            }
                        } else {
                            r matches Ok(MainAction::Nothing)
                        },
                        None => r matches Ok(MainAction::Nothing),
                    },
                    _ => r matches Ok(MainAction::Nothing) && fnew.unfinished_uploads.state
                        == u.state,
                }
            },
        }
    }

    /// Handles a key on the transfers pane.
    fn handle_progress_key(&mut self, key: KeyInput) -> (r: Result<MainAction, String>)
        requires
            old(self).wf(),
        ensures
            final(self).wf(),
            Self::progress_step(*old(self), *final(self), key, r),
    {
        match self.files_progress.selected {
            SelectedProgressTab::Downloads => handle_transfer_list_key(
                &mut self.files_progress.downloads,
                key,
                true,
            ),
            SelectedProgressTab::Uploads => handle_transfer_list_key(
                &mut self.files_progress.uploads,
                key,
                false,
            ),
            SelectedProgressTab::UnfinishedUploads => {
                match key.code {
                    KeyCode::Up => self.files_progress.unfinished_uploads.state.select_previous(),
                    KeyCode::Down => self.files_progress.unfinished_uploads.state.select_next(),
                    KeyCode::Delete => {
                        match self.files_progress.unfinished_uploads.state.selected() {
                            Some(ind) => {
                                match upload_map_get_index(
                                    &self.files_progress.unfinished_uploads.list,
                                    ind,
                                ) {
                                    Some(upload) => {
                                        let k = upload.0.clone();
                                        let bucket = self.files_progress.unfinished_uploads.bucket.clone();
                                        return match &upload.1.upload_id {
                                            Some(id) => Ok(
                                                MainAction::AbortUpload {
                                                    bucket,
                                                    key: k,
                                                    upload_id: id.clone(),
                                                },
                                            ),
                                            None => Err(String::from_str("Could not get upload ID")),
                                        };
                                    },
                                    None => {},
                                }
                            },
                            None => {},
                        }
                    },
                    _ => {},
                }
                Ok(MainAction::Nothing)
            },
        }
    }

    /// The bucket that 'u' uploads to, when one is selected, is one of
    /// the listed buckets.
    pub open spec fn key_in_range(&self, key: KeyInput) -> bool {
        self.input_popup is None && key.code == KeyCode::Char('u') && self.active_window
            == ActiveWindow::Buckets ==> (self.buckets.state.selected matches Some(i)
            ==> i < self.buckets.list.len())
    }

    /// What a key does on the main screen, `o` before and `n` after,
    /// with `r` what came back: see `handle_key`.
    pub open spec fn key_step(o: Self, n: Self, key: KeyInput, r: Result<MainAction, String>) -> bool {
        match o.input_popup {
            Some(_) => Self::popup_step(o, n, key, r),
            None => match key.code {
                KeyCode::Char('1') => r matches Ok(MainAction::Nothing) && n
                    == MainMenuWidget { active_window: ActiveWindow::Buckets, ..o },
                KeyCode::Char('2') => r matches Ok(MainAction::Nothing) && n
                    == MainMenuWidget { active_window: ActiveWindow::FileTree, ..o },
                KeyCode::Char('3') => r matches Ok(MainAction::Nothing) && n
                    == MainMenuWidget {
                    active_window: ActiveWindow::FilesProgress,
                    files_progress: FilesProgressWidget {
                        selected: SelectedProgressTab::Downloads,
                        ..o.files_progress
                    },
                    ..o
                },
                KeyCode::Char('4') => r matches Ok(MainAction::Nothing) && n
                    == MainMenuWidget {
                    active_window: ActiveWindow::FilesProgress,
                    files_progress: FilesProgressWidget {
                        selected: SelectedProgressTab::Uploads,
                        ..o.files_progress
                    },
                    ..o
                },
                KeyCode::Char('5') => r matches Ok(MainAction::Nothing) && n
                    == MainMenuWidget {
                    active_window: ActiveWindow::FilesProgress,
                    files_progress: FilesProgressWidget {
                        selected: SelectedProgressTab::UnfinishedUploads,
                        ..o.files_progress
                    },
                    ..o
                },
                _ => match o.active_window {
                    ActiveWindow::Buckets => Self::buckets_step(o, n, key, r),
                    ActiveWindow::FileTree => Self::tree_step(o, n, key, r),
                    ActiveWindow::FilesProgress => Self::progress_step(o, n, key, r),
                },
            },
        }
    }

    /// Handles a key on the main screen: the popup takes every key while
    /// it is open; '1' to '5' focus a pane (and pick a transfer list);
    /// other keys go to the focused pane.
    pub fn handle_key(&mut self, key: KeyInput) -> (r: Result<MainAction, String>)
        requires
            old(self).wf(),
            old(self).key_in_range(key),
        ensures
            final(self).wf(),
            Self::key_step(*old(self), *final(self), key, r),
    {
        if self.input_popup.is_some() {
            return self.handle_popup_key(key);
        }
        match key.code {
            KeyCode::Char('1') => {
                self.active_window = ActiveWindow::Buckets;
                return Ok(MainAction::Nothing);
            },
            KeyCode::Char('2') => {
                self.active_window = ActiveWindow::FileTree;
                return Ok(MainAction::Nothing);
            },
            KeyCode::Char('3') => {
                self.active_window = ActiveWindow::FilesProgress;
                self.files_progress.selected = SelectedProgressTab::Downloads;
                return Ok(MainAction::Nothing);
            },
            KeyCode::Char('4') => {
                self.active_window = ActiveWindow::FilesProgress;
                self.files_progress.selected = SelectedProgressTab::Uploads;
                return Ok(MainAction::Nothing);
            },
            KeyCode::Char('5') => {
                self.active_window = ActiveWindow::FilesProgress;
                self.files_progress.selected = SelectedProgressTab::UnfinishedUploads;
                return Ok(MainAction::Nothing);
            },
            _ => {},
        }
        match self.active_window {
            ActiveWindow::Buckets => self.handle_buckets_key(key),
            ActiveWindow::FileTree => self.handle_tree_key(key),
            ActiveWindow::FilesProgress => self.handle_progress_key(key),
        }
    }
}

/// The size an object's head gave, as bytes: 0 when it gave none.
pub open spec fn info_size(info: S3ObjectInfo) -> u64 {
    match info.content_length {
        Some(n) => n as u64,
        None => 0,
    }
}

/// The lines that describe an object: its file name, its size in SI
/// units, its content type ("unknown" without one) and when it was last
/// modified ("none" without a date).
pub open spec fn info_lines(info: S3ObjectInfo) -> Seq<Seq<char>> {
    seq![
        "Name: "@ + file_name_of(info.key@),
        "Size: "@ + crate::size_text::byte_size_si(info_size(info)),
        "Type: "@ + match info.content_type {
            Some(t) => t@,
            None => "unknown"@,
        },
        "Last modified: "@ + match info.last_modified {
            Some(d) => d@,
            None => "none"@,
        },
    ]
}

/// `prefix` followed by `rest`.
fn prefixed(prefix: &str, rest: &str) -> (r: String)
    ensures
        r@ == prefix@ + rest@,
{
    let mut line = String::from_str(prefix);
    line.append(rest);
    line
}

/// The lines of the object details pane for `info` (see `info_lines`).
pub fn object_info_lines(info: &S3ObjectInfo) -> (r: Vec<String>)
    ensures
        r@.map_values(|l: String| l@) == info_lines(*info),
{
    let name = match get_file_name(info.key.as_str()) {
        Ok(n) => prefixed("Name: ", n),
        Err(_) => prefixed("Name: ", info.key.as_str()),
    };
    let bytes: u64 = match info.content_length {
        Some(n) => n as u64,
        None => 0,
    };
    let size_text = crate::size_text::format_size_si(bytes);
    let size = prefixed("Size: ", size_text.as_str());
    let kind = match &info.content_type {
        Some(t) => prefixed("Type: ", t.as_str()),
        None => prefixed("Type: ", "unknown"),
    };
    let modified = match &info.last_modified {
        Some(d) => prefixed("Last modified: ", d.as_str()),
        None => prefixed("Last modified: ", "none"),
    };
    let r = vec![name, size, kind, modified];
    proof {
        assert(r@.map_values(|l: String| l@) =~= info_lines(*info));
    }
    r
}

impl<'a> MainMenuWidget<'a> {
    /// Gives the focus to the pane the screen has active, and takes it
    /// from the two others.
    pub fn sync_focus(&mut self)
        ensures
            *final(self) == (MainMenuWidget {
                buckets: BucketsWidget {
                    is_active: old(self).active_window == ActiveWindow::Buckets,
                    ..old(self).buckets
                },
                tree: TreeWidget {
                    is_active: old(self).active_window == ActiveWindow::FileTree,
                    ..old(self).tree
                },
                files_progress: FilesProgressWidget {
                    is_active: old(self).active_window == ActiveWindow::FilesProgress,
                    ..old(self).files_progress
                },
                ..*old(self)
            }),
    {
        let on_buckets = match self.active_window {
            ActiveWindow::Buckets => true,
            _ => false,
        };
        let on_tree = match self.active_window {
            ActiveWindow::FileTree => true,
            _ => false,
        };
        let on_progress = match self.active_window {
            ActiveWindow::FilesProgress => true,
            _ => false,
        };
        self.buckets.set_active(on_buckets);
        self.tree.set_active(on_tree);
        self.files_progress.set_active(on_progress);
    }
}

/// Delete in the transfers pane cancels the selected transfer of the list
/// shown, and of that kind: a download on the downloads tab, an upload on
/// the uploads tab. The entry leaves its list and the other list stays.
pub proof fn lemma_delete_cancels_selected_transfer<'a>(
    o: MainMenuWidget<'a>,
    n: MainMenuWidget<'a>,
    key: KeyInput,
    r: Result<MainAction, String>,
    i: usize,
)
    requires
        o.input_popup is None,
        o.active_window == ActiveWindow::FilesProgress,
        key.code == KeyCode::Delete,
        MainMenuWidget::key_step(o, n, key, r),
    ensures
        o.files_progress.selected == SelectedProgressTab::Uploads && o.files_progress.uploads.state.selected
            == Some(i) && i < o.files_progress.uploads.entries().len() ==> {
            &&& r is Ok && r->Ok_0 is CancelUpload
            &&& r->Ok_0->CancelUpload_0@ == o.files_progress.uploads.entries()[i as int].0@
            &&& n.files_progress.uploads.entries() == o.files_progress.uploads.entries().remove(i as int)
            &&& n.files_progress.downloads == o.files_progress.downloads
        },
        o.files_progress.selected == SelectedProgressTab::Downloads && o.files_progress.downloads.state.selected
            == Some(i) && i < o.files_progress.downloads.entries().len() ==> {
            &&& r is Ok && r->Ok_0 is CancelDownload
            &&& r->Ok_0->CancelDownload_0@ == o.files_progress.downloads.entries()[i as int].0@
            &&& n.files_progress.downloads.entries() == o.files_progress.downloads.entries().remove(i as int)
            &&& n.files_progress.uploads == o.files_progress.uploads
        },
{
}

} // verus!
