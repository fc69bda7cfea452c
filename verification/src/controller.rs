use vstd::prelude::*;

use crate::host::HostModel;
use crate::host::SshHost;
use crate::host::clone_hosts;
use crate::strutil::lower_char;
use crate::strutil::trim;
use crate::tree::TreeItem;
use crate::tree::TreeItemModel;
use crate::tree::build_tree;
use crate::tree::flags_map;
use crate::tree::idx_seq;
use crate::tree::matching_indices;
use crate::tree::row_name;
use crate::tree::rows_in_bounds;
use crate::tree::row_in_bounds;
use crate::tree::tree_spec;

verus! {

/// The modal state of the controller.
#[derive(Clone, Copy, PartialEq, Eq, Structural, Debug)]
pub enum AppMode {
    Normal,
    Search,
    ConfigManagement,
    EditingHost,
    ConfirmDelete,
    ConfirmDiscardEdit,
    ReviewChanges,
    ShowVersion,
}

/// The configuration action last started, kept for the rendering layer.
#[derive(Clone, Copy, PartialEq, Eq, Structural, Debug)]
pub enum ConfigAction {
    NoAction,
    Add,
    Edit,
    Delete,
}

/// The keys the controller reacts to. A key outside this set is `Other`.
#[derive(Clone, Copy, PartialEq, Eq, Structural, Debug)]
pub enum Key {
    Char(char),
    Enter,
    Esc,
    Backspace,
    Tab,
    BackTab,
    Up,
    Down,
    PageUp,
    PageDown,
    Other,
}

/// What the caller must do after a key was handled: nothing, run the
/// external SSH session for the named host, or persist the host list and
/// report back through `finish_apply`.
pub enum Effect {
    Nothing,
    Connect(String),
    PersistRequest,
}

/// One staged, not yet persisted mutation of the host list.
pub enum ChangeType {
    Added(SshHost),
    Modified { old: SshHost, new: SshHost },
    Deleted(SshHost),
}

/// Model of a staged change.
#[verifier::ext_equal]
pub enum ChangeModel {
    Added(HostModel),
    Modified { old: HostModel, new: HostModel },
    Deleted(HostModel),
}

impl View for ChangeType {
    type V = ChangeModel;

    open spec fn view(&self) -> ChangeModel {
        match self {
            ChangeType::Added(h) => ChangeModel::Added(h@),
            ChangeType::Modified { old, new } => ChangeModel::Modified { old: old@, new: new@ },
            ChangeType::Deleted(h) => ChangeModel::Deleted(h@),
        }
    }
}

impl DeepView for ChangeType {
    type V = ChangeModel;

    open spec fn deep_view(&self) -> ChangeModel {
        self.view()
    }
}

/// The transient edit buffer: the nine editable fields, the captured
/// original values for change detection, and the cursor over the fields.
pub struct EditingHostData {
    pub name: String,
    pub hostname: String,
    pub user: String,
    pub port: String,
    pub identity_file: String,
    pub folder: String,
    pub display_name: String,
    pub description: String,
    pub visible: bool,
    pub current_field: usize,
    pub original_name: String,
    pub original_hostname: String,
    pub original_user: String,
    pub original_port: String,
    pub original_identity_file: String,
    pub original_folder: String,
    pub original_display_name: String,
    pub original_description: String,
    pub original_visible: bool,
}

/// Model of the edit buffer.
#[verifier::ext_equal]
pub struct EditModel {
    pub name: Seq<char>,
    pub hostname: Seq<char>,
    pub user: Seq<char>,
    pub port: Seq<char>,
    pub identity_file: Seq<char>,
    pub folder: Seq<char>,
    pub display_name: Seq<char>,
    pub description: Seq<char>,
    pub visible: bool,
    pub current_field: int,
    pub original_name: Seq<char>,
    pub original_hostname: Seq<char>,
    pub original_user: Seq<char>,
    pub original_port: Seq<char>,
    pub original_identity_file: Seq<char>,
    pub original_folder: Seq<char>,
    pub original_display_name: Seq<char>,
    pub original_description: Seq<char>,
    pub original_visible: bool,
}

impl View for EditingHostData {
    type V = EditModel;

    open spec fn view(&self) -> EditModel {
        EditModel {
            name: self.name@,
            hostname: self.hostname@,
            user: self.user@,
            port: self.port@,
            identity_file: self.identity_file@,
            folder: self.folder@,
            display_name: self.display_name@,
            description: self.description@,
            visible: self.visible,
            current_field: self.current_field as int,
            original_name: self.original_name@,
            original_hostname: self.original_hostname@,
            original_user: self.original_user@,
            original_port: self.original_port@,
            original_identity_file: self.original_identity_file@,
            original_folder: self.original_folder@,
            original_display_name: self.original_display_name@,
            original_description: self.original_description@,
            original_visible: self.original_visible,
        }
    }
}

/// The interactive state machine: the host collection with its persisted
/// snapshot, the derived display tree, the staged change log, and the
/// modal input state.
pub struct App {
    pub hosts: Vec<SshHost>,
    pub original_hosts: Vec<SshHost>,
    pub filtered_hosts: Vec<usize>,
    pub tree_items: Vec<TreeItem>,
    pub selected: Option<usize>,
    pub search_query: String,
    pub mode: AppMode,
    pub config_action: ConfigAction,
    pub editing_host: Option<EditingHostData>,
    pub editing_host_index: Option<usize>,
    pub pending_changes: Vec<ChangeType>,
    pub delete_target: Option<usize>,
    pub review_scroll: usize,
    pub current_edit_change_index: Option<usize>,
    pub should_quit: bool,
    pub folder_flags: Vec<(String, bool)>,
}

/// The index list the filter must hold: every index when no query is
/// active, else exactly the indices of matching hosts.
pub open spec fn filtered_spec(hosts: Seq<HostModel>, q: Seq<char>) -> Seq<int> {
    if q.len() == 0 {
        Seq::new(hosts.len(), |i: int| i)
    } else {
        matching_indices(hosts, q)
    }
}

impl App {
    /// A recorded commit of the current edit session points at a change
    /// whose reversal is still exact.
    pub open spec fn edit_commit_ok(self) -> bool {
        match self.current_edit_change_index {
            Some(ci) => {
                &&& ci < self.pending_changes@.len()
                &&& match self.pending_changes@[ci as int]@ {
                    ChangeModel::Added(h) => {
                        &&& self.editing_host_index is None
                        &&& self.hosts@.len() > 0
                        &&& self.hosts@.last()@ == h
                    },
                    ChangeModel::Modified { old, new } => {
                        &&& match self.editing_host_index {
                            Some(idx) => idx < self.hosts@.len() && self.hosts@[idx as int]@
                                == new,
                            None => false,
                        }
                    },
                    ChangeModel::Deleted(_) => false,
                }
            },
            None => true,
        }
    }

    /// Consistency of the derived structures (filter, tree, selection)
    /// with the host list, the expansion flags and the active query.
    pub open spec fn derived_ok(self) -> bool {
        &&& self.tree_items.deep_view() == tree_spec(
            self.hosts.deep_view(),
            flags_map(self.folder_flags.deep_view()),
            self.search_query@,
        )
        &&& rows_in_bounds(self.hosts@.len() as int, self.tree_items.deep_view())
        &&& match self.selected {
            Some(i) => i < self.tree_items@.len(),
            None => true,
        }
        &&& self.tree_items@.len() == 0 ==> self.selected is None
        &&& idx_seq(self.filtered_hosts@) == filtered_spec(
            self.hosts.deep_view(),
            self.search_query@,
        )
    }

    /// The recorded edit and delete targets point into the host list, and
    /// are only held while the mode that uses them is active.
    pub open spec fn targets_ok(self) -> bool {
        &&& match self.editing_host_index {
            Some(i) => i < self.hosts@.len() && (self.mode == AppMode::EditingHost || self.mode
                == AppMode::ConfirmDiscardEdit),
            None => true,
        }
        &&& match self.delete_target {
            Some(i) => i < self.hosts@.len() && self.mode == AppMode::ConfirmDelete,
            None => true,
        }
        &&& self.current_edit_change_index is Some ==> (self.mode == AppMode::EditingHost
            || self.mode == AppMode::ConfirmDiscardEdit)
        &&& match self.editing_host {
            Some(ed) => ed.current_field < 9,
            None => true,
        }
        &&& self.edit_commit_ok()
    }

    /// The state invariant every public operation preserves.
    pub open spec fn wf(self) -> bool {
        self.derived_ok() && self.targets_ok()
    }

    /// Builds the initial state around a loaded host list: the snapshot
    /// equals the list, nothing is staged, the tree is derived with every
    /// folder expanded, and the first row is selected when one exists.
    pub fn new(hosts: Vec<SshHost>) -> (app: App)
        ensures
            app.wf(),
            app.hosts.deep_view() == hosts.deep_view(),
            app.original_hosts.deep_view() == hosts.deep_view(),
            app.pending_changes@.len() == 0,
            app.search_query@.len() == 0,
            app.mode == AppMode::Normal,
            app.should_quit == false,
            app.folder_flags@.len() == 0,
            app.tree_items.deep_view() == tree_spec(
                hosts.deep_view(),
                flags_map(Seq::<(Seq<char>, bool)>::empty()),
                Seq::<char>::empty(),
            ),
            app.selected == if app.tree_items@.len() == 0 {
                Option::<usize>::None
            } else {
                Option::<usize>::Some(0usize)
            },
    {
        let original_hosts = clone_hosts(&hosts);
        let folder_flags: Vec<(String, bool)> = Vec::new();
        let query = String::new();
        let tree_items = build_tree(&hosts, &folder_flags, query.as_str());
        let selected: Option<usize> = if tree_items.len() > 0 {
            Some(0)
        } else {
            None
        };
        let mut filtered_hosts: Vec<usize> = Vec::new();
        let mut i: usize = 0;
        while i < hosts.len()
            invariant
                0 <= i <= hosts@.len(),
                filtered_hosts@.len() == i,
                forall|k: int| 0 <= k < i ==> #[trigger] filtered_hosts@[k] as int == k,
            decreases hosts@.len() - i,
        {
            filtered_hosts.push(i);
            i = i + 1;
        }
        proof {
            assert(idx_seq(filtered_hosts@) =~= Seq::new(hosts.deep_view().len(), |k: int| k))
                by {
                assert forall|k: int| 0 <= k < filtered_hosts@.len() implies #[trigger] idx_seq(
                    filtered_hosts@,
                )[k] == k by {
                    assert(filtered_hosts@[k] as int == k);
                }
            }
        }
        let app = App {
            hosts,
            original_hosts,
            filtered_hosts,
            tree_items,
            selected,
            search_query: query,
            mode: AppMode::Normal,
            config_action: ConfigAction::NoAction,
            editing_host: None,
            editing_host_index: None,
            pending_changes: Vec::new(),
            delete_target: None,
            review_scroll: 0,
            current_edit_change_index: None,
            should_quit: false,
            folder_flags,
        };
        proof {
            assert(app.folder_flags.deep_view() =~= Seq::<(Seq<char>, bool)>::empty());
            assert(app.search_query@ =~= Seq::<char>::empty());
            assert(idx_seq(app.filtered_hosts@) == filtered_spec(
                app.hosts.deep_view(),
                app.search_query@,
            ));
        }
        app
    }

    /// Recomputes the filtered index list and the display tree from the
    /// current hosts, flags and query, and resets the selection to the
    /// first row, or to none when the tree came out empty.
    pub fn filter_hosts(&mut self)
        requires
            old(self).targets_ok(),
        ensures
            final(self).wf(),
            final(self).hosts == old(self).hosts,
            final(self).original_hosts == old(self).original_hosts,
            final(self).pending_changes == old(self).pending_changes,
            final(self).search_query == old(self).search_query,
            final(self).mode == old(self).mode,
            final(self).folder_flags == old(self).folder_flags,
            final(self).editing_host == old(self).editing_host,
            final(self).editing_host_index == old(self).editing_host_index,
            final(self).delete_target == old(self).delete_target,
            final(self).current_edit_change_index == old(self).current_edit_change_index,
            final(self).should_quit == old(self).should_quit,
            final(self).config_action == old(self).config_action,
            final(self).review_scroll == old(self).review_scroll,
            final(self).tree_items.deep_view() == tree_spec(
                old(self).hosts.deep_view(),
                flags_map(old(self).folder_flags.deep_view()),
                old(self).search_query@,
            ),
            final(self).selected == if final(self).tree_items@.len() == 0 {
                Option::<usize>::None
            } else {
                Option::<usize>::Some(0usize)
            },
    {
        let ghost hm = self.hosts.deep_view();
        let mut filtered: Vec<usize> = Vec::new();
        if self.search_query.as_str().is_empty() {
            let mut i: usize = 0;
            while i < self.hosts.len()
                invariant
                    0 <= i <= self.hosts@.len(),
                    filtered@.len() == i,
                    forall|k: int| 0 <= k < i ==> #[trigger] filtered@[k] as int == k,
                decreases self.hosts@.len() - i,
            {
                filtered.push(i);
                i = i + 1;
            }
            proof {
                assert(idx_seq(filtered@) =~= Seq::new(hm.len(), |k: int| k)) by {
                    assert forall|k: int| 0 <= k < filtered@.len() implies #[trigger] idx_seq(
                        filtered@,
                    )[k] == k by {
                        assert(filtered@[k] as int == k);
                    }
                }
            }
        } else {
            let mut i: usize = 0;
            while i < self.hosts.len()
                invariant
                    0 <= i <= self.hosts@.len(),
                    hm == self.hosts.deep_view(),
                    self.search_query@.len() > 0,
                    idx_seq(filtered@) == matching_indices(hm.take(i as int), self.search_query@),
                decreases self.hosts@.len() - i,
            {
                proof {
                    assert(hm.take(i + 1).drop_last() =~= hm.take(i as int));
                    assert(hm.take(i + 1).last() == hm[i as int]);
                    assert(hm[i as int] == self.hosts@[i as int].deep_view());
                }
                if self.hosts[i].matches_search(self.search_query.as_str()) {
                    filtered.push(i);
                    proof {
                        assert(idx_seq(filtered@) =~= matching_indices(
                            hm.take(i as int),
                            self.search_query@,
                        ).push(i as int));
                    }
                }
                i = i + 1;
            }
            proof {
                assert(hm.take(hm.len() as int) =~= hm);
            }
        }
        self.filtered_hosts = filtered;
        let items = build_tree(&self.hosts, &self.folder_flags, self.search_query.as_str());
        self.tree_items = items;
        if self.tree_items.len() > 0 {
            self.selected = Some(0);
        } else {
            self.selected = None;
        }
    }

    /// Rederives the display tree and clamps the selection into range.
    pub fn rebuild_tree(&mut self)
        requires
            old(self).targets_ok(),
            idx_seq(old(self).filtered_hosts@) == filtered_spec(
                old(self).hosts.deep_view(),
                old(self).search_query@,
            ),
        ensures
            final(self).wf(),
            final(self).hosts == old(self).hosts,
            final(self).original_hosts == old(self).original_hosts,
            final(self).pending_changes == old(self).pending_changes,
            final(self).search_query == old(self).search_query,
            final(self).mode == old(self).mode,
            final(self).folder_flags == old(self).folder_flags,
            final(self).tree_items.deep_view() == tree_spec(
                old(self).hosts.deep_view(),
                flags_map(old(self).folder_flags.deep_view()),
                old(self).search_query@,
            ),
            final(self).selected == clamp_sel(
                old(self).selected,
                final(self).tree_items@.len() as int,
            ),
    {
        let items = build_tree(&self.hosts, &self.folder_flags, self.search_query.as_str());
        self.tree_items = items;
        match self.selected {
            Some(i) => {
                if self.tree_items.len() == 0 {
                    self.selected = None;
                } else if i >= self.tree_items.len() {
                    self.selected = Some(self.tree_items.len() - 1);
                }
            },
            None => {},
        }
    }

    /// Moves the selection one row down, wrapping to the top.
    pub fn next(&mut self)
        requires
            old(self).wf(),
        ensures
            final(self).wf(),
            old(self).tree_items@.len() == 0 ==> *final(self) == *old(self),
            old(self).tree_items@.len() > 0 ==> *final(self) == (App {
                selected: Some(
                    match old(self).selected {
                        Some(i) => if i as int >= old(self).tree_items@.len() - 1 {
                            0usize
                        } else {
                            (i + 1) as usize
                        },
                        None => 0usize,
                    },
                ),
                ..*old(self)
            }),
    {
        if self.tree_items.len() == 0 {
            return;
        }
        let i: usize = match self.selected {
            Some(i) => {
                if i >= self.tree_items.len() - 1 {
                    0
                } else {
                    i + 1
                }
            },
            None => 0,
        };
        self.selected = Some(i);
    }

    /// Moves the selection one row up, wrapping to the bottom.
    pub fn previous(&mut self)
        requires
            old(self).wf(),
        ensures
            final(self).wf(),
            old(self).tree_items@.len() == 0 ==> *final(self) == *old(self),
            old(self).tree_items@.len() > 0 ==> *final(self) == (App {
                selected: Some(
                    match old(self).selected {
                        Some(i) => if i == 0 {
                            (old(self).tree_items@.len() - 1) as usize
                        } else {
                            (i - 1) as usize
                        },
                        None => 0usize,
                    },
                ),
                ..*old(self)
            }),
    {
        if self.tree_items.len() == 0 {
            return;
        }
        let i: usize = match self.selected {
            Some(i) => {
                if i == 0 {
                    self.tree_items.len() - 1
                } else {
                    i - 1
                }
            },
            None => 0,
        };
        self.selected = Some(i);
    }

    /// The host the selection rests on, when it rests on a host row.
    pub fn get_selected_host(&self) -> (r: Option<&SshHost>)
        requires
            self.wf(),
        ensures
            match r {
                Some(h) => {
                    &&& self.selected is Some
                    &&& self.tree_items@[self.selected->0 as int]@ matches TreeItemModel::Host {
                        host_index,
                    } && host_index < self.hosts@.len() && h == &self.hosts@[host_index]
                },
                None => match self.selected {
                    Some(i) => !(self.tree_items@[i as int]@ is Host),
                    None => true,
                },
            },
    {
        match self.selected {
            Some(i) => {
                proof {
                    assert(self.tree_items.deep_view()[i as int] == self.tree_items@[i as int]@);
                    assert(row_in_bounds(
                        self.hosts@.len() as int,
                        self.tree_items.deep_view()[i as int],
                    ));
                }
                match &self.tree_items[i] {
                    TreeItem::Host { host_index } => Some(&self.hosts[*host_index]),
                    TreeItem::Folder { .. } => None,
                }
            },
            None => None,
        }
    }
}

// ---------------------------------------------------------------------------
// The edit buffer and the staged-change transaction.
// ---------------------------------------------------------------------------

/// An empty edit buffer: blank fields, visible, cursor on the name field.
pub open spec fn blank_edit() -> EditModel {
    EditModel {
        name: Seq::<char>::empty(),
        hostname: Seq::<char>::empty(),
        user: Seq::<char>::empty(),
        port: Seq::<char>::empty(),
        identity_file: Seq::<char>::empty(),
        folder: Seq::<char>::empty(),
        display_name: Seq::<char>::empty(),
        description: Seq::<char>::empty(),
        visible: true,
        current_field: 0,
        original_name: Seq::<char>::empty(),
        original_hostname: Seq::<char>::empty(),
        original_user: Seq::<char>::empty(),
        original_port: Seq::<char>::empty(),
        original_identity_file: Seq::<char>::empty(),
        original_folder: Seq::<char>::empty(),
        original_display_name: Seq::<char>::empty(),
        original_description: Seq::<char>::empty(),
        original_visible: true,
    }
}

pub open spec fn opt_or_empty(o: Option<Seq<char>>) -> Seq<char> {
    match o {
        Some(s) => s,
        None => Seq::<char>::empty(),
    }
}

/// The buffer `start_edit` fills from a host: fields and captured
/// originals both hold the host's current values.
pub open spec fn edit_of_host(h: HostModel) -> EditModel {
    EditModel {
        name: h.name,
        hostname: opt_or_empty(h.hostname),
        user: opt_or_empty(h.user),
        port: opt_or_empty(h.port),
        identity_file: opt_or_empty(h.identity_file),
        folder: opt_or_empty(h.folder),
        display_name: opt_or_empty(h.display_name),
        description: opt_or_empty(h.description),
        visible: h.visible,
        current_field: 0,
        original_name: h.name,
        original_hostname: opt_or_empty(h.hostname),
        original_user: opt_or_empty(h.user),
        original_port: opt_or_empty(h.port),
        original_identity_file: opt_or_empty(h.identity_file),
        original_folder: opt_or_empty(h.folder),
        original_display_name: opt_or_empty(h.display_name),
        original_description: opt_or_empty(h.description),
        original_visible: h.visible,
    }
}

/// Whether the buffer differs from its captured originals in any of the
/// nine editable fields.
pub open spec fn edit_changed(ed: EditModel) -> bool {
    ||| ed.name != ed.original_name
    ||| ed.hostname != ed.original_hostname
    ||| ed.user != ed.original_user
    ||| ed.port != ed.original_port
    ||| ed.identity_file != ed.original_identity_file
    ||| ed.folder != ed.original_folder
    ||| ed.display_name != ed.original_display_name
    ||| ed.description != ed.original_description
    ||| ed.visible != ed.original_visible
}

pub open spec fn none_if_empty(s: Seq<char>) -> Option<Seq<char>> {
    if s.len() == 0 {
        None
    } else {
        Some(s)
    }
}

/// The host a commit builds from the buffer: empty optional fields become
/// absent, and no unrecognized options are carried.
pub open spec fn host_from_buffer(ed: EditModel) -> HostModel {
    HostModel {
        name: ed.name,
        hostname: none_if_empty(ed.hostname),
        user: none_if_empty(ed.user),
        port: none_if_empty(ed.port),
        identity_file: none_if_empty(ed.identity_file),
        other_options: Seq::<(Seq<char>, Seq<char>)>::empty(),
        folder: none_if_empty(ed.folder),
        display_name: none_if_empty(ed.display_name),
        description: none_if_empty(ed.description),
        visible: ed.visible,
    }
}

pub open spec fn edit_view(o: Option<EditingHostData>) -> Option<EditModel> {
    match o {
        Some(ed) => Some(ed@),
        None => None,
    }
}

impl App {
    /// Opens a blank edit buffer for adding a host.
    fn start_adding_host(&mut self)
        requires
            old(self).wf(),
            old(self).mode == AppMode::ConfigManagement,
        ensures
            final(self).wf(),
            *final(self) == (App {
                editing_host: final(self).editing_host,
                editing_host_index: None,
                current_edit_change_index: None,
                mode: AppMode::EditingHost,
                ..*old(self)
            }),
            edit_view(final(self).editing_host) == Some(blank_edit()),
    {
        let editing_data = EditingHostData {
            name: String::new(),
            hostname: String::new(),
            user: String::new(),
            port: String::new(),
            identity_file: String::new(),
            folder: String::new(),
            display_name: String::new(),
            description: String::new(),
            visible: true,
            current_field: 0,
            original_name: String::new(),
            original_hostname: String::new(),
            original_user: String::new(),
            original_port: String::new(),
            original_identity_file: String::new(),
            original_folder: String::new(),
            original_display_name: String::new(),
            original_description: String::new(),
            original_visible: true,
        };
        self.editing_host = Some(editing_data);
        self.editing_host_index = None;
        self.current_edit_change_index = None;
        self.mode = AppMode::EditingHost;
    }

    /// Opens an edit buffer pre-filled from the selected host; a folder row
    /// or an empty selection changes nothing.
    fn start_editing_selected_host(&mut self)
        requires
            old(self).wf(),
            old(self).mode == AppMode::ConfigManagement,
        ensures
            final(self).wf(),
            match old(self).selected {
                Some(sel) => match old(self).tree_items@[sel as int]@ {
                    TreeItemModel::Host { host_index } => {
                        &&& *final(self) == (App {
                            editing_host: final(self).editing_host,
                            editing_host_index: Some(host_index as usize),
                            current_edit_change_index: None,
                            mode: AppMode::EditingHost,
                            ..*old(self)
                        })
                        &&& edit_view(final(self).editing_host) == Some(
                            edit_of_host(old(self).hosts@[host_index]@),
                        )
                    },
                    TreeItemModel::Folder { .. } => *final(self) == *old(self),
                },
                None => *final(self) == *old(self),
            },
    {
        let sel = match self.selected {
            Some(s) => s,
            None => {
                return ;
            },
        };
        proof {
            assert(self.tree_items.deep_view()[sel as int] == self.tree_items@[sel as int]@);
            assert(row_in_bounds(
                self.hosts@.len() as int,
                self.tree_items.deep_view()[sel as int],
            ));
        }
        let host_index: usize = match &self.tree_items[sel] {
            TreeItem::Host { host_index } => *host_index,
            TreeItem::Folder { .. } => {
                return ;
            },
        };
        let host = &self.hosts[host_index];
        let name = host.name.clone();
        let hostname = opt_to_string(&host.hostname);
        let user = opt_to_string(&host.user);
        let port = opt_to_string(&host.port);
        let identity_file = opt_to_string(&host.identity_file);
        let folder = opt_to_string(&host.folder);
        let display_name = opt_to_string(&host.display_name);
        let description = opt_to_string(&host.description);
        let visible = host.visible;
        let editing_data = EditingHostData {
            name: name.clone(),
            hostname: hostname.clone(),
            user: user.clone(),
            port: port.clone(),
            identity_file: identity_file.clone(),
            folder: folder.clone(),
            display_name: display_name.clone(),
            description: description.clone(),
            visible,
            current_field: 0,
            original_name: name,
            original_hostname: hostname,
            original_user: user,
            original_port: port,
            original_identity_file: identity_file,
            original_folder: folder,
            original_display_name: display_name,
            original_description: description,
            original_visible: visible,
        };
        self.editing_host = Some(editing_data);
        self.editing_host_index = Some(host_index);
        self.current_edit_change_index = None;
        self.mode = AppMode::EditingHost;
    }

    /// Marks the selected host for deletion and asks for confirmation; a
    /// folder row or an empty selection changes nothing.
    fn start_deleting_selected_host(&mut self)
        requires
            old(self).wf(),
            old(self).mode == AppMode::ConfigManagement,
        ensures
            final(self).wf(),
            match old(self).selected {
                Some(sel) => match old(self).tree_items@[sel as int]@ {
                    TreeItemModel::Host { host_index } => *final(self) == (App {
                        delete_target: Some(host_index as usize),
                        mode: AppMode::ConfirmDelete,
                        ..*old(self)
                    }),
                    TreeItemModel::Folder { .. } => *final(self) == *old(self),
                },
                None => *final(self) == *old(self),
            },
    {
        let sel = match self.selected {
            Some(s) => s,
            None => {
                return ;
            },
        };
        proof {
            assert(self.tree_items.deep_view()[sel as int] == self.tree_items@[sel as int]@);
            assert(row_in_bounds(
                self.hosts@.len() as int,
                self.tree_items.deep_view()[sel as int],
            ));
        }
        let host_index: usize = match &self.tree_items[sel] {
            TreeItem::Host { host_index } => *host_index,
            TreeItem::Folder { .. } => {
                return ;
            },
        };
        self.delete_target = Some(host_index);
        self.mode = AppMode::ConfirmDelete;
    }

    /// Field-wise change detection between the buffer and its originals.
    pub fn has_edit_changes(&self) -> (r: bool)
        ensures
            r == match edit_view(self.editing_host) {
                Some(ed) => edit_changed(ed),
                None => false,
            },
    {
        match &self.editing_host {
            Some(ed) => {
                ed.name != ed.original_name || ed.hostname != ed.original_hostname || ed.user
                    != ed.original_user || ed.port != ed.original_port || ed.identity_file
                    != ed.original_identity_file || ed.folder != ed.original_folder
                    || ed.display_name != ed.original_display_name || ed.description
                    != ed.original_description || ed.visible != ed.original_visible
            },
            None => false,
        }
    }
}

/// Clones the content of an optional string, or gives the empty string.
fn opt_to_string(o: &Option<String>) -> (r: String)
    ensures
        r@ == opt_or_empty(crate::host::opt_view(*o)),
{
    match o {
        Some(s) => s.clone(),
        None => String::new(),
    }
}

// ---------------------------------------------------------------------------
// Commit, delete, apply, discard.
// ---------------------------------------------------------------------------

/// What a commit (Enter while editing) leaves behind: nothing when the name
/// trims to empty; otherwise the built host is staged as a modification of
/// the edited index or appended as an addition, the buffer is closed, and
/// the tree is rebuilt with the selection reset.
pub open spec fn commit_post(o: App, n: App) -> bool {
    match edit_view(o.editing_host) {
        None => n == (App {
            editing_host_index: None,
            current_edit_change_index: None,
            mode: AppMode::ConfigManagement,
            ..o
        }),
        Some(ed) => if trim(ed.name).len() == 0 {
            n == o
        } else {
            let new_h = host_from_buffer(ed);
            &&& match o.editing_host_index {
                Some(idx) => {
                    &&& n.hosts.deep_view() == o.hosts.deep_view().update(idx as int, new_h)
                    &&& n.pending_changes.deep_view() == o.pending_changes.deep_view().push(
                        (ChangeModel::Modified { old: o.hosts@[idx as int]@, new: new_h }),
                    )
                },
                None => {
                    &&& n.hosts.deep_view() == o.hosts.deep_view().push(new_h)
                    &&& n.pending_changes.deep_view() == o.pending_changes.deep_view().push(
                        ChangeModel::Added(new_h),
                    )
                },
            }
            &&& n.editing_host is None
            &&& n.editing_host_index is None
            &&& n.current_edit_change_index is None
            &&& n.mode == AppMode::ConfigManagement
            &&& n.original_hosts == o.original_hosts
            &&& n.search_query == o.search_query
            &&& n.folder_flags == o.folder_flags
            &&& n.delete_target == o.delete_target
            &&& n.should_quit == o.should_quit
            &&& n.review_scroll == o.review_scroll
            &&& n.config_action == o.config_action
            &&& n.selected == (if n.tree_items@.len() == 0 {
                Option::<usize>::None
            } else {
                Option::<usize>::Some(0usize)
            })
        },
    }
}

impl App {
    /// Commits the edit buffer (Enter while editing). An empty trimmed
    /// name is silently rejected and the session stays open.
    fn save_edited_host(&mut self)
        requires
            old(self).wf(),
            old(self).mode == AppMode::EditingHost,
        ensures
            final(self).wf(),
            commit_post(*old(self), *final(self)),
    {
        let (name, hostname, user, port, identity_file, folder, display_name, description,
            visible): (String, String, String, String, String, String, String, String, bool) =
            match &self.editing_host {
            Some(ed) => (
                ed.name.clone(),
                ed.hostname.clone(),
                ed.user.clone(),
                ed.port.clone(),
                ed.identity_file.clone(),
                ed.folder.clone(),
                ed.display_name.clone(),
                ed.description.clone(),
                ed.visible,
            ),
            None => {
                self.editing_host_index = None;
                self.current_edit_change_index = None;
                self.mode = AppMode::ConfigManagement;
                return ;
            },
        };
        let trimmed = crate::strutil::trim_exec(name.as_str());
        if trimmed.is_empty() {
            return ;
        }
        let mut new_host = SshHost::new(name);
        if !hostname.as_str().is_empty() {
            new_host.hostname = Some(hostname);
        }
        if !user.as_str().is_empty() {
            new_host.user = Some(user);
        }
        if !port.as_str().is_empty() {
            new_host.port = Some(port);
        }
        if !identity_file.as_str().is_empty() {
            new_host.identity_file = Some(identity_file);
        }
        if !folder.as_str().is_empty() {
            new_host.folder = Some(folder);
        }
        if !display_name.as_str().is_empty() {
            new_host.display_name = Some(display_name);
        }
        if !description.as_str().is_empty() {
            new_host.description = Some(description);
        }
        new_host.visible = visible;
        proof {
            assert(new_host@ =~= host_from_buffer(edit_view(self.editing_host)->0));
        }
        match self.editing_host_index {
            Some(idx) => {
                let old_host = self.hosts[idx].clone();
                self.pending_changes.push(
                    ChangeType::Modified { old: old_host, new: new_host.clone() },
                );
                self.current_edit_change_index = Some(self.pending_changes.len() - 1);
                self.hosts.set(idx, new_host);
                proof {
                    assert(self.hosts.deep_view() =~= old(self).hosts.deep_view().update(
                        idx as int,
                        host_from_buffer(edit_view(old(self).editing_host)->0),
                    ));
                    assert(self.pending_changes.deep_view() =~= old(
                        self,
                    ).pending_changes.deep_view().push(
                        (ChangeModel::Modified {
                            old: old(self).hosts@[idx as int]@,
                            new: host_from_buffer(edit_view(old(self).editing_host)->0),
                        }),
                    ));
                }
            },
            None => {
                self.pending_changes.push(ChangeType::Added(new_host.clone()));
                self.current_edit_change_index = Some(self.pending_changes.len() - 1);
                self.hosts.push(new_host);
                proof {
                    assert(self.hosts.deep_view() =~= old(self).hosts.deep_view().push(
                        host_from_buffer(edit_view(old(self).editing_host)->0),
                    ));
                    assert(self.pending_changes.deep_view() =~= old(
                        self,
                    ).pending_changes.deep_view().push(
                        ChangeModel::Added(host_from_buffer(edit_view(old(self).editing_host)->0)),
                    ));
                }
            },
        }
        self.filter_hosts();
        self.editing_host = None;
        self.editing_host_index = None;
        self.current_edit_change_index = None;
        self.mode = AppMode::ConfigManagement;
    }

    /// Confirms the pending deletion: the host is captured into the change
    /// log, removed from the list, and the tree rebuilt.
    fn confirm_delete(&mut self)
        requires
            old(self).wf(),
            old(self).mode == AppMode::ConfirmDelete,
        ensures
            final(self).wf(),
            match old(self).delete_target {
                Some(idx) => {
                    &&& final(self).hosts.deep_view() == old(self).hosts.deep_view().remove(
                        idx as int,
                    )
                    &&& final(self).pending_changes.deep_view() == old(
                        self,
                    ).pending_changes.deep_view().push(
                        ChangeModel::Deleted(old(self).hosts@[idx as int]@),
                    )
                    &&& final(self).selected == (if final(self).tree_items@.len() == 0 {
                        Option::<usize>::None
                    } else {
                        Option::<usize>::Some(0usize)
                    })
                },
                None => {
                    &&& final(self).hosts == old(self).hosts
                    &&& final(self).pending_changes == old(self).pending_changes
                    &&& final(self).selected == old(self).selected
                    &&& final(self).tree_items == old(self).tree_items
                },
            },
            final(self).delete_target is None,
            final(self).mode == AppMode::ConfigManagement,
            final(self).original_hosts == old(self).original_hosts,
            final(self).search_query == old(self).search_query,
            final(self).folder_flags == old(self).folder_flags,
            final(self).editing_host == old(self).editing_host,
            final(self).should_quit == old(self).should_quit,
    {
        match self.delete_target {
            Some(idx) => {
                let removed = self.hosts.remove(idx);
                self.pending_changes.push(ChangeType::Deleted(removed));
                self.delete_target = None;
                proof {
                    assert(self.hosts.deep_view() =~= old(self).hosts.deep_view().remove(
                        idx as int,
                    ));
                    assert(self.pending_changes.deep_view() =~= old(
                        self,
                    ).pending_changes.deep_view().push(
                        ChangeModel::Deleted(old(self).hosts@[idx as int]@),
                    ));
                }
                self.filter_hosts();
            },
            None => {},
        }
        self.delete_target = None;
        self.mode = AppMode::ConfigManagement;
    }

    /// Reverts every staged change: the host list is restored from the
    /// snapshot, the change log is cleared, and the tree rebuilt.
    fn discard_changes(&mut self)
        requires
            old(self).wf(),
            old(self).mode == AppMode::ReviewChanges,
        ensures
            final(self).wf(),
            final(self).hosts.deep_view() == old(self).original_hosts.deep_view(),
            final(self).original_hosts == old(self).original_hosts,
            final(self).pending_changes@.len() == 0,
            final(self).mode == old(self).mode,
            final(self).search_query == old(self).search_query,
            final(self).folder_flags == old(self).folder_flags,
            final(self).should_quit == old(self).should_quit,
            final(self).review_scroll == old(self).review_scroll,
            final(self).selected == (if final(self).tree_items@.len() == 0 {
                Option::<usize>::None
            } else {
                Option::<usize>::Some(0usize)
            }),
    {
        self.hosts = clone_hosts(&self.original_hosts);
        self.pending_changes = Vec::new();
        self.filter_hosts();
    }

    /// Records that the staged changes were successfully persisted: the
    /// snapshot becomes the current host list and the change log is
    /// cleared. The caller invokes this only after the external writer
    /// succeeded; on failure nothing is changed and a retry stays
    /// possible.
    pub fn finish_apply(&mut self)
        requires
            old(self).wf(),
            old(self).mode == AppMode::ReviewChanges,
        ensures
            final(self).wf(),
            final(self).original_hosts.deep_view() == old(self).hosts.deep_view(),
            final(self).hosts == old(self).hosts,
            final(self).pending_changes@.len() == 0,
            final(self).mode == AppMode::Normal,
            final(self).review_scroll == 0,
            final(self).tree_items == old(self).tree_items,
            final(self).selected == old(self).selected,
            final(self).search_query == old(self).search_query,
            final(self).folder_flags == old(self).folder_flags,
            final(self).should_quit == old(self).should_quit,
    {
        self.original_hosts = clone_hosts(&self.hosts);
        self.pending_changes = Vec::new();
        self.mode = AppMode::Normal;
        self.review_scroll = 0;
    }

    /// Replaces the host list and its snapshot with a freshly loaded one,
    /// dropping every staged change.
    pub fn reload_config(&mut self, hosts: Vec<SshHost>)
        requires
            old(self).wf(),
            old(self).editing_host_index is None,
            old(self).delete_target is None,
            old(self).current_edit_change_index is None,
        ensures
            final(self).wf(),
            final(self).hosts.deep_view() == hosts.deep_view(),
            final(self).original_hosts.deep_view() == hosts.deep_view(),
            final(self).pending_changes@.len() == 0,
            final(self).mode == old(self).mode,
            final(self).search_query == old(self).search_query,
            final(self).folder_flags == old(self).folder_flags,
            final(self).selected == (if final(self).tree_items@.len() == 0 {
                Option::<usize>::None
            } else {
                Option::<usize>::Some(0usize)
            }),
    {
        self.hosts = hosts;
        self.original_hosts = clone_hosts(&self.hosts);
        self.pending_changes = Vec::new();
        self.filter_hosts();
    }

    /// Rolls the committed edit of this session back precisely: a fresh
    /// addition is popped, a modification restored from its captured old
    /// host, and the one change log entry removed. Without a recorded
    /// commit there is nothing to revert.
    fn discard_current_edit(&mut self)
        requires
            old(self).wf(),
            old(self).mode == AppMode::ConfirmDiscardEdit,
        ensures
            final(self).wf(),
            match old(self).current_edit_change_index {
                Some(ci) => {
                    &&& match old(self).pending_changes@[ci as int]@ {
                        ChangeModel::Added(_) => final(self).hosts.deep_view() == old(
                            self,
                        ).hosts.deep_view().drop_last(),
                        ChangeModel::Modified { old: oh, .. } => final(self).hosts.deep_view()
                            == old(self).hosts.deep_view().update(
                            old(self).editing_host_index->0 as int,
                            oh,
                        ),
                        ChangeModel::Deleted(_) => false,
                    }
                    &&& final(self).pending_changes.deep_view() == old(
                        self,
                    ).pending_changes.deep_view().remove(ci as int)
                    &&& final(self).current_edit_change_index is None
                },
                None => *final(self) == *old(self),
            },
            final(self).original_hosts == old(self).original_hosts,
            final(self).search_query == old(self).search_query,
            final(self).folder_flags == old(self).folder_flags,
            final(self).mode == old(self).mode,
            final(self).editing_host == old(self).editing_host,
            final(self).editing_host_index == old(self).editing_host_index,
            final(self).should_quit == old(self).should_quit,
            final(self).delete_target == old(self).delete_target,
            final(self).config_action == old(self).config_action,
            final(self).review_scroll == old(self).review_scroll,
    {
        let ci = match self.current_edit_change_index {
            Some(ci) => ci,
            None => {
                return ;
            },
        };
        let is_add = match &self.pending_changes[ci] {
            ChangeType::Added(_) => true,
            ChangeType::Modified { .. } => false,
            ChangeType::Deleted(_) => false,
        };
        if is_add {
            let dropped = self.hosts.pop();
            proof {
                assert(self.hosts.deep_view() =~= old(self).hosts.deep_view().drop_last());
            }
        } else {
            let restored = match &self.pending_changes[ci] {
                ChangeType::Modified { old, .. } => old.clone(),
                _ => {
                    proof {
                        assert(false);
                    }
                    SshHost::new(String::new())
                },
            };
            let idx = match self.editing_host_index {
                Some(idx) => idx,
                None => {
                    proof {
                        assert(false);
                    }
                    0
                },
            };
            self.hosts.set(idx, restored);
            proof {
                assert(self.hosts.deep_view() =~= old(self).hosts.deep_view().update(
                    idx as int,
                    old(self).pending_changes@[ci as int]@->Modified_old,
                ));
            }
        }
        let removed_change = self.pending_changes.remove(ci);
        self.current_edit_change_index = None;
        proof {
            assert(self.pending_changes.deep_view() =~= old(
                self,
            ).pending_changes.deep_view().remove(ci as int));
        }
        self.filter_hosts();
    }
}

// ---------------------------------------------------------------------------
// Key dispatch: one post predicate per mode.
// ---------------------------------------------------------------------------

/// The selection after moving one row down, wrapping to the top.
pub open spec fn next_sel(o: App) -> Option<usize> {
    if o.tree_items@.len() == 0 {
        o.selected
    } else {
        Some(
            match o.selected {
                Some(i) => if i as int >= o.tree_items@.len() - 1 {
                    0usize
                } else {
                    (i + 1) as usize
                },
                None => 0usize,
            },
        )
    }
}

/// The selection after moving one row up, wrapping to the bottom.
pub open spec fn prev_sel(o: App) -> Option<usize> {
    if o.tree_items@.len() == 0 {
        o.selected
    } else {
        Some(
            match o.selected {
                Some(i) => if i == 0 {
                    (o.tree_items@.len() - 1) as usize
                } else {
                    (i - 1) as usize
                },
                None => 0usize,
            },
        )
    }
}

/// A selection clamped into a tree of the given length.
pub open spec fn clamp_sel(sel: Option<usize>, len: int) -> Option<usize> {
    match sel {
        Some(s) => if len == 0 {
            None
        } else if (s as int) < len {
            Some(s)
        } else {
            Some((len - 1) as usize)
        },
        None => None,
    }
}

/// The state after flipping the folder row at `row`: the flag map changes
/// at that folder's name alone, the tree equals a rebuild under the new
/// flags, the selection is clamped, and everything else is untouched.
pub open spec fn toggled_at(o: App, n: App, row: int) -> bool {
    let f = row_name(o.tree_items.deep_view()[row]);
    let fm0 = flags_map(o.folder_flags.deep_view());
    &&& flags_map(n.folder_flags.deep_view()) == fm0.insert(f, !fm0[f])
    &&& n.tree_items.deep_view() == tree_spec(
        o.hosts.deep_view(),
        flags_map(n.folder_flags.deep_view()),
        o.search_query@,
    )
    &&& n.hosts == o.hosts
    &&& n.original_hosts == o.original_hosts
    &&& n.filtered_hosts == o.filtered_hosts
    &&& n.pending_changes == o.pending_changes
    &&& n.search_query == o.search_query
    &&& n.mode == o.mode
    &&& n.config_action == o.config_action
    &&& n.editing_host == o.editing_host
    &&& n.editing_host_index == o.editing_host_index
    &&& n.delete_target == o.delete_target
    &&& n.review_scroll == o.review_scroll
    &&& n.current_edit_change_index == o.current_edit_change_index
    &&& n.should_quit == o.should_quit
    &&& n.selected == clamp_sel(o.selected, n.tree_items@.len() as int)
}

/// Activating the selection: a folder row flips, a host row asks the
/// caller to connect by name, an empty selection does nothing.
pub open spec fn activate_post(o: App, n: App, eff: Effect) -> bool {
    match o.selected {
        Some(i) => match o.tree_items.deep_view()[i as int] {
            TreeItemModel::Folder { .. } => toggled_at(o, n, i as int) && eff is Nothing,
            TreeItemModel::Host { host_index } => n == o && (eff matches Effect::Connect(name)
                && name@ == o.hosts@[host_index]@.name),
        },
        None => n == o && eff is Nothing,
    }
}

/// The query was edited: the filter, tree and selection follow the new
/// query and everything else stands.
pub open spec fn refiltered(o: App, n: App) -> bool {
    &&& n.hosts == o.hosts
    &&& n.original_hosts == o.original_hosts
    &&& n.pending_changes == o.pending_changes
    &&& n.mode == o.mode
    &&& n.config_action == o.config_action
    &&& n.editing_host == o.editing_host
    &&& n.editing_host_index == o.editing_host_index
    &&& n.delete_target == o.delete_target
    &&& n.review_scroll == o.review_scroll
    &&& n.current_edit_change_index == o.current_edit_change_index
    &&& n.should_quit == o.should_quit
    &&& n.folder_flags == o.folder_flags
    &&& n.tree_items.deep_view() == tree_spec(
        n.hosts.deep_view(),
        flags_map(n.folder_flags.deep_view()),
        n.search_query@,
    )
    &&& idx_seq(n.filtered_hosts@) == filtered_spec(n.hosts.deep_view(), n.search_query@)
    &&& n.selected == (if n.tree_items@.len() == 0 {
        Option::<usize>::None
    } else {
        Option::<usize>::Some(0usize)
    })
}

pub open spec fn pop_seq(s: Seq<char>) -> Seq<char> {
    if s.len() == 0 {
        s
    } else {
        s.drop_last()
    }
}

/// Search mode: characters narrow the query, Backspace widens it, Enter
/// returns to Normal and activates the selection, Esc returns retaining
/// the query.
pub open spec fn search_post(o: App, n: App, key: Key, eff: Effect) -> bool {
    match key {
        Key::Char(c) => refiltered(o, n) && n.search_query@ == o.search_query@.push(c) && eff
            is Nothing,
        Key::Backspace => refiltered(o, n) && n.search_query@ == pop_seq(o.search_query@) && eff
            is Nothing,
        Key::Enter => activate_post(App { mode: AppMode::Normal, ..o }, n, eff),
        Key::Esc => n == (App { mode: AppMode::Normal, ..o }) && eff is Nothing,
        _ => n == o && eff is Nothing,
    }
}

/// Normal mode: navigation, mode switches, quitting, and activation.
pub open spec fn normal_post(o: App, n: App, key: Key, eff: Effect) -> bool {
    match key {
        Key::Char(c) => if c == 'q' {
            n == (App { should_quit: true, ..o }) && eff is Nothing
        } else if c == '/' {
            n == (App { mode: AppMode::Search, ..o }) && eff is Nothing
        } else if c == 'e' {
            n == (App { mode: AppMode::ConfigManagement, ..o }) && eff is Nothing
        } else if c == 'v' {
            n == (App { mode: AppMode::ShowVersion, ..o }) && eff is Nothing
        } else if c == ' ' {
            activate_post(o, n, eff)
        } else {
            n == o && eff is Nothing
        },
        Key::Down => n == (App { selected: next_sel(o), ..o }) && eff is Nothing,
        Key::Up => n == (App { selected: prev_sel(o), ..o }) && eff is Nothing,
        Key::Enter => activate_post(o, n, eff),
        _ => n == o && eff is Nothing,
    }
}

/// What starting an edit of the selected host leaves behind.
pub open spec fn start_edit_post(o: App, n: App) -> bool {
    match o.selected {
        Some(sel) => match o.tree_items@[sel as int]@ {
            TreeItemModel::Host { host_index } => {
                &&& n == (App {
                    editing_host: n.editing_host,
                    editing_host_index: Some(host_index as usize),
                    current_edit_change_index: None,
                    mode: AppMode::EditingHost,
                    ..o
                })
                &&& edit_view(n.editing_host) == Some(edit_of_host(o.hosts@[host_index]@))
            },
            TreeItemModel::Folder { .. } => n == o,
        },
        None => n == o,
    }
}

/// What marking the selected host for deletion leaves behind.
pub open spec fn start_delete_post(o: App, n: App) -> bool {
    match o.selected {
        Some(sel) => match o.tree_items@[sel as int]@ {
            TreeItemModel::Host { host_index } => n == (App {
                delete_target: Some(host_index as usize),
                mode: AppMode::ConfirmDelete,
                ..o
            }),
            TreeItemModel::Folder { .. } => n == o,
        },
        None => n == o,
    }
}

/// Configuration mode: start add/edit/delete, navigate, or leave towards
/// review when changes are staged.
pub open spec fn config_post(o: App, n: App, key: Key, eff: Effect) -> bool {
    eff is Nothing && match key {
        Key::Esc => if o.pending_changes@.len() > 0 {
            n == (App { mode: AppMode::ReviewChanges, ..o })
        } else {
            n == (App { mode: AppMode::Normal, config_action: ConfigAction::NoAction, ..o })
        },
        Key::Char(c) => if c == 'q' {
            if o.pending_changes@.len() > 0 {
                n == (App { mode: AppMode::ReviewChanges, ..o })
            } else {
                n == (App { mode: AppMode::Normal, ..o })
            }
        } else if c == 'a' {
            &&& n == (App {
                editing_host: n.editing_host,
                editing_host_index: None,
                current_edit_change_index: None,
                mode: AppMode::EditingHost,
                ..o
            })
            &&& edit_view(n.editing_host) == Some(blank_edit())
        } else if c == 'e' {
            start_edit_post(o, n)
        } else if c == 'd' {
            start_delete_post(o, n)
        } else {
            n == o
        },
        Key::Down => n == (App { selected: next_sel(o), ..o }),
        Key::Up => n == (App { selected: prev_sel(o), ..o }),
        _ => n == o,
    }
}

pub open spec fn field_get(ed: EditModel, f: int) -> Seq<char> {
    if f == 0 {
        ed.name
    } else if f == 1 {
        ed.hostname
    } else if f == 2 {
        ed.user
    } else if f == 3 {
        ed.port
    } else if f == 4 {
        ed.identity_file
    } else if f == 5 {
        ed.folder
    } else if f == 6 {
        ed.display_name
    } else {
        ed.description
    }
}

pub open spec fn field_set(ed: EditModel, f: int, v: Seq<char>) -> EditModel {
    if f == 0 {
        EditModel { name: v, ..ed }
    } else if f == 1 {
        EditModel { hostname: v, ..ed }
    } else if f == 2 {
        EditModel { user: v, ..ed }
    } else if f == 3 {
        EditModel { port: v, ..ed }
    } else if f == 4 {
        EditModel { identity_file: v, ..ed }
    } else if f == 5 {
        EditModel { folder: v, ..ed }
    } else if f == 6 {
        EditModel { display_name: v, ..ed }
    } else {
        EditModel { description: v, ..ed }
    }
}

/// One key applied to the edit buffer: Tab and the arrows cycle the nine
/// fields, characters append (with `t`/`y`/`f`/`n`/space switching the
/// visibility field), Backspace deletes.
pub open spec fn edit_apply_key(ed: EditModel, key: Key) -> EditModel {
    match key {
        Key::Tab | Key::Down => EditModel { current_field: (ed.current_field + 1) % 9, ..ed },
        Key::BackTab | Key::Up => EditModel {
            current_field: if ed.current_field == 0 {
                8
            } else {
                ed.current_field - 1
            },
            ..ed
        },
        Key::Backspace => if ed.current_field == 8 {
            ed
        } else {
            field_set(ed, ed.current_field, pop_seq(field_get(ed, ed.current_field)))
        },
        Key::Char(c) => if ed.current_field == 8 {
            if c == ' ' {
                EditModel { visible: !ed.visible, ..ed }
            } else if lower_char(c) == 't' || lower_char(c) == 'y' {
                EditModel { visible: true, ..ed }
            } else if lower_char(c) == 'f' || lower_char(c) == 'n' {
                EditModel { visible: false, ..ed }
            } else {
                ed
            }
        } else {
            field_set(ed, ed.current_field, field_get(ed, ed.current_field).push(c))
        },
        _ => ed,
    }
}

/// Editing mode: keys shape the buffer, Enter commits, Esc leaves (via a
/// confirmation when the buffer changed).
pub open spec fn editing_post(o: App, n: App, key: Key, eff: Effect) -> bool {
    eff is Nothing && match edit_view(o.editing_host) {
        None => n == o,
        Some(ed) => match key {
            Key::Esc => if edit_changed(ed) {
                n == (App { mode: AppMode::ConfirmDiscardEdit, ..o })
            } else {
                n == (App {
                    editing_host: None,
                    editing_host_index: None,
                    current_edit_change_index: None,
                    mode: AppMode::ConfigManagement,
                    ..o
                })
            },
            Key::Enter => commit_post(o, n),
            Key::Tab | Key::Down | Key::BackTab | Key::Up | Key::Backspace | Key::Char(_) => {
                &&& n == (App { editing_host: n.editing_host, ..o })
                &&& edit_view(n.editing_host) == Some(edit_apply_key(ed, key))
            },
            _ => n == o,
        },
    }
}

/// Delete confirmation: `y` removes the marked host and stages the
/// deletion, `n` and Esc withdraw.
pub open spec fn delete_confirm_post(o: App, n: App, key: Key, eff: Effect) -> bool {
    eff is Nothing && match key {
        Key::Char(c) => if c == 'y' || c == 'Y' {
            &&& match o.delete_target {
                Some(idx) => {
                    &&& n.hosts.deep_view() == o.hosts.deep_view().remove(idx as int)
                    &&& n.pending_changes.deep_view() == o.pending_changes.deep_view().push(
                        ChangeModel::Deleted(o.hosts@[idx as int]@),
                    )
                    &&& n.selected == (if n.tree_items@.len() == 0 {
                        Option::<usize>::None
                    } else {
                        Option::<usize>::Some(0usize)
                    })
                },
                None => n.hosts == o.hosts && n.pending_changes == o.pending_changes
                    && n.selected == o.selected,
            }
            &&& n.delete_target is None
            &&& n.mode == AppMode::ConfigManagement
            &&& n.original_hosts == o.original_hosts
            &&& n.search_query == o.search_query
            &&& n.folder_flags == o.folder_flags
            &&& n.editing_host == o.editing_host
            &&& n.should_quit == o.should_quit
        } else if c == 'n' || c == 'N' {
            n == (App { delete_target: None, mode: AppMode::ConfigManagement, ..o })
        } else {
            n == o
        },
        Key::Esc => n == (App { delete_target: None, mode: AppMode::ConfigManagement, ..o }),
        _ => n == o,
    }
}

/// Discard confirmation: `y` reverses the committed edit of this session
/// exactly and closes the buffer, `n` and Esc return to editing.
pub open spec fn discard_edit_post(o: App, n: App, key: Key, eff: Effect) -> bool {
    eff is Nothing && match key {
        Key::Char(c) => if c == 'y' || c == 'Y' {
            &&& match o.current_edit_change_index {
                Some(ci) => {
                    &&& match o.pending_changes@[ci as int]@ {
                        ChangeModel::Added(_) => n.hosts.deep_view()
                            == o.hosts.deep_view().drop_last(),
                        ChangeModel::Modified { old: oh, .. } => n.hosts.deep_view()
                            == o.hosts.deep_view().update(o.editing_host_index->0 as int, oh),
                        ChangeModel::Deleted(_) => false,
                    }
                    &&& n.pending_changes.deep_view() == o.pending_changes.deep_view().remove(
                        ci as int,
                    )
                },
                None => n.hosts == o.hosts && n.pending_changes == o.pending_changes,
            }
            &&& n.editing_host is None
            &&& n.editing_host_index is None
            &&& n.current_edit_change_index is None
            &&& n.mode == AppMode::ConfigManagement
            &&& n.original_hosts == o.original_hosts
            &&& n.search_query == o.search_query
            &&& n.folder_flags == o.folder_flags
            &&& n.should_quit == o.should_quit
        } else if c == 'n' || c == 'N' {
            n == (App { mode: AppMode::EditingHost, ..o })
        } else {
            n == o
        },
        Key::Esc => n == (App { mode: AppMode::EditingHost, ..o }),
        _ => n == o,
    }
}

/// Review mode: `y` asks the caller to persist, `n` discards everything,
/// Esc returns to configuration, and the rest scrolls.
pub open spec fn review_post(o: App, n: App, key: Key, eff: Effect) -> bool {
    match key {
        Key::Char(c) => if c == 'y' || c == 'Y' {
            n == o && eff is PersistRequest
        } else if c == 'n' || c == 'N' {
            &&& n.hosts.deep_view() == o.original_hosts.deep_view()
            &&& n.original_hosts == o.original_hosts
            &&& n.pending_changes@.len() == 0
            &&& n.mode == AppMode::Normal
            &&& n.review_scroll == 0
            &&& n.search_query == o.search_query
            &&& n.folder_flags == o.folder_flags
            &&& n.should_quit == o.should_quit
            &&& n.selected == (if n.tree_items@.len() == 0 {
                Option::<usize>::None
            } else {
                Option::<usize>::Some(0usize)
            })
            &&& eff is Nothing
        } else {
            n == o && eff is Nothing
        },
        Key::Esc => n == (App { mode: AppMode::ConfigManagement, review_scroll: 0, ..o }) && eff
            is Nothing,
        Key::Up => n == (App {
            review_scroll: if o.review_scroll > 0 {
                (o.review_scroll - 1) as usize
            } else {
                0usize
            },
            ..o
        }) && eff is Nothing,
        Key::Down => n == (App {
            review_scroll: if o.review_scroll as int + 1 <= usize::MAX as int {
                (o.review_scroll + 1) as usize
            } else {
                usize::MAX
            },
            ..o
        }) && eff is Nothing,
        Key::PageUp => n == (App {
            review_scroll: if o.review_scroll >= 10 {
                (o.review_scroll - 10) as usize
            } else {
                0usize
            },
            ..o
        }) && eff is Nothing,
        Key::PageDown => n == (App {
            review_scroll: if o.review_scroll as int + 10 <= usize::MAX as int {
                (o.review_scroll + 10) as usize
            } else {
                usize::MAX
            },
            ..o
        }) && eff is Nothing,
        _ => n == o && eff is Nothing,
    }
}

/// Version mode: Esc, Enter and `q` return to Normal.
pub open spec fn version_post(o: App, n: App, key: Key, eff: Effect) -> bool {
    eff is Nothing && match key {
        Key::Esc | Key::Enter => n == (App { mode: AppMode::Normal, ..o }),
        Key::Char(c) => if c == 'q' {
            n == (App { mode: AppMode::Normal, ..o })
        } else {
            n == o
        },
        _ => n == o,
    }
}

impl App {
    /// Flips the expansion state of the folder row at `folder_index` and
    /// patches the member rows in place; any other row is left alone.
    pub fn toggle_folder_expanded(&mut self, folder_index: usize)
        requires
            old(self).wf(),
        ensures
            final(self).wf(),
            (folder_index < old(self).tree_items@.len() && old(
                self,
            ).tree_items.deep_view()[folder_index as int] is Folder) ==> toggled_at(
                *old(self),
                *final(self),
                folder_index as int,
            ),
            !(folder_index < old(self).tree_items@.len() && old(
                self,
            ).tree_items.deep_view()[folder_index as int] is Folder) ==> *final(self) == *old(
                self,
            ),
    {
        let ghost was_folder = folder_index < self.tree_items@.len()
            && self.tree_items.deep_view()[folder_index as int] is Folder;
        crate::tree::toggle_folder_row(
            &self.hosts,
            &mut self.folder_flags,
            &mut self.tree_items,
            self.search_query.as_str(),
            folder_index,
        );
        match self.selected {
            Some(s) => {
                if self.tree_items.len() == 0 {
                    self.selected = None;
                } else if s >= self.tree_items.len() {
                    self.selected = Some(self.tree_items.len() - 1);
                }
            },
            None => {},
        }
    }

    /// Activates the selection: toggles a folder row, or names the host to
    /// connect to.
    fn activate_selection(&mut self) -> (eff: Effect)
        requires
            old(self).wf(),
        ensures
            final(self).wf(),
            activate_post(*old(self), *final(self), eff),
    {
        let sel = match self.selected {
            Some(s) => s,
            None => {
                return Effect::Nothing;
            },
        };
        proof {
            assert(self.tree_items.deep_view()[sel as int] == self.tree_items@[sel as int]@);
            assert(row_in_bounds(
                self.hosts@.len() as int,
                self.tree_items.deep_view()[sel as int],
            ));
        }
        let host_index: usize = match &self.tree_items[sel] {
            TreeItem::Host { host_index } => *host_index,
            TreeItem::Folder { .. } => {
                self.toggle_folder_expanded(sel);
                return Effect::Nothing;
            },
        };
        Effect::Connect(self.hosts[host_index].name.clone())
    }

    /// The name of the selected host, when the selection rests on one.
    pub fn connect_to_selected(&self) -> (r: Option<String>)
        requires
            self.wf(),
        ensures
            match r {
                Some(name) => {
                    &&& self.selected is Some
                    &&& self.tree_items@[self.selected->0 as int]@ matches TreeItemModel::Host {
                        host_index,
                    } && name@ == self.hosts@[host_index]@.name
                },
                None => match self.selected {
                    Some(i) => !(self.tree_items@[i as int]@ is Host),
                    None => true,
                },
            },
    {
        match self.get_selected_host() {
            Some(h) => Some(h.name.clone()),
            None => None,
        }
    }
}

/// What one key press leaves behind, by the mode it arrived in: the
/// dispatch contract of `handle_event`.
pub open spec fn step_post(o: App, n: App, key: Key, eff: Effect) -> bool {
    match o.mode {
        AppMode::Normal => normal_post(o, n, key, eff),
        AppMode::Search => search_post(o, n, key, eff),
        AppMode::ConfigManagement => config_post(o, n, key, eff),
        AppMode::EditingHost => editing_post(o, n, key, eff),
        AppMode::ConfirmDelete => delete_confirm_post(o, n, key, eff),
        AppMode::ConfirmDiscardEdit => discard_edit_post(o, n, key, eff),
        AppMode::ReviewChanges => review_post(o, n, key, eff),
        AppMode::ShowVersion => version_post(o, n, key, eff),
    }
}

/// No key handling ever touches the persisted snapshot: along any staged
/// sequence of additions, edits and deletions the snapshot stands still,
/// and only `finish_apply` moves it.
pub proof fn lemma_step_preserves_snapshot(o: App, n: App, key: Key, eff: Effect)
    requires
        step_post(o, n, key, eff),
    ensures
        n.original_hosts == o.original_hosts,
{
}

/// Declining the review restores the host list from the untouched
/// snapshot and empties the change log: any staged sequence followed by a
/// discard leaves the state it found.
pub proof fn lemma_discard_restores_snapshot(o: App, n: App, eff: Effect)
    requires
        o.mode == AppMode::ReviewChanges,
        step_post(o, n, Key::Char('n'), eff),
    ensures
        n.hosts.deep_view() == o.original_hosts.deep_view(),
        n.original_hosts == o.original_hosts,
        n.pending_changes@.len() == 0,
{
}

impl App {
    fn handle_search_input(&mut self, key: Key) -> (eff: Effect)
        requires
            old(self).wf(),
            old(self).mode == AppMode::Search,
        ensures
            final(self).wf(),
            search_post(*old(self), *final(self), key, eff),
    {
        match key {
            Key::Char(c) => {
                crate::strutil::push_char(&mut self.search_query, c);
                self.filter_hosts();
                Effect::Nothing
            },
            Key::Backspace => {
                let popped = crate::strutil::pop_char(&mut self.search_query);
                self.filter_hosts();
                Effect::Nothing
            },
            Key::Enter => {
                self.mode = AppMode::Normal;
                self.activate_selection()
            },
            Key::Esc => {
                self.mode = AppMode::Normal;
                Effect::Nothing
            },
            _ => Effect::Nothing,
        }
    }

    fn handle_normal_input(&mut self, key: Key) -> (eff: Effect)
        requires
            old(self).wf(),
            old(self).mode == AppMode::Normal,
        ensures
            final(self).wf(),
            normal_post(*old(self), *final(self), key, eff),
    {
        match key {
            Key::Char(c) => {
                if c == 'q' {
                    self.should_quit = true;
                    Effect::Nothing
                } else if c == '/' {
                    self.mode = AppMode::Search;
                    Effect::Nothing
                } else if c == 'e' {
                    self.mode = AppMode::ConfigManagement;
                    Effect::Nothing
                } else if c == 'v' {
                    self.mode = AppMode::ShowVersion;
                    Effect::Nothing
                } else if c == ' ' {
                    self.activate_selection()
                } else {
                    Effect::Nothing
                }
            },
            Key::Down => {
                self.next();
                Effect::Nothing
            },
            Key::Up => {
                self.previous();
                Effect::Nothing
            },
            Key::Enter => self.activate_selection(),
            _ => Effect::Nothing,
        }
    }

    fn handle_config_input(&mut self, key: Key) -> (eff: Effect)
        requires
            old(self).wf(),
            old(self).mode == AppMode::ConfigManagement,
        ensures
            final(self).wf(),
            config_post(*old(self), *final(self), key, eff),
    {
        match key {
            Key::Esc => {
                if self.pending_changes.len() > 0 {
                    self.mode = AppMode::ReviewChanges;
                } else {
                    self.mode = AppMode::Normal;
                    self.config_action = ConfigAction::NoAction;
                }
            },
            Key::Char(c) => {
                if c == 'q' {
                    if self.pending_changes.len() > 0 {
                        self.mode = AppMode::ReviewChanges;
                    } else {
                        self.mode = AppMode::Normal;
                    }
                } else if c == 'a' {
                    self.start_adding_host();
                } else if c == 'e' {
                    self.start_editing_selected_host();
                } else if c == 'd' {
                    self.start_deleting_selected_host();
                }
            },
            Key::Down => {
                self.next();
            },
            Key::Up => {
                self.previous();
            },
            _ => {},
        }
        Effect::Nothing
    }

    fn handle_editing_input(&mut self, key: Key) -> (eff: Effect)
        requires
            old(self).wf(),
            old(self).mode == AppMode::EditingHost,
        ensures
            final(self).wf(),
            editing_post(*old(self), *final(self), key, eff),
    {
        let has_buffer = match &self.editing_host {
            Some(_) => true,
            None => false,
        };
        if !has_buffer {
            return Effect::Nothing;
        }
        match key {
            Key::Esc => {
                if self.has_edit_changes() {
                    self.mode = AppMode::ConfirmDiscardEdit;
                } else {
                    self.editing_host = None;
                    self.editing_host_index = None;
                    self.current_edit_change_index = None;
                    self.mode = AppMode::ConfigManagement;
                }
            },
            Key::Enter => {
                self.save_edited_host();
            },
            Key::Tab | Key::Down => {
                match &mut self.editing_host {
                    Some(ed) => {
                        ed.current_field = (ed.current_field + 1) % 9;
                    },
                    None => {},
                }
            },
            Key::BackTab | Key::Up => {
                match &mut self.editing_host {
                    Some(ed) => {
                        ed.current_field = if ed.current_field == 0 {
                            8
                        } else {
                            ed.current_field - 1
                        };
                    },
                    None => {},
                }
            },
            Key::Backspace => {
                match &mut self.editing_host {
                    Some(ed) => {
                        if ed.current_field == 0 {
                            let p = crate::strutil::pop_char(&mut ed.name);
                        } else if ed.current_field == 1 {
                            let p = crate::strutil::pop_char(&mut ed.hostname);
                        } else if ed.current_field == 2 {
                            let p = crate::strutil::pop_char(&mut ed.user);
                        } else if ed.current_field == 3 {
                            let p = crate::strutil::pop_char(&mut ed.port);
                        } else if ed.current_field == 4 {
                            let p = crate::strutil::pop_char(&mut ed.identity_file);
                        } else if ed.current_field == 5 {
                            let p = crate::strutil::pop_char(&mut ed.folder);
                        } else if ed.current_field == 6 {
                            let p = crate::strutil::pop_char(&mut ed.display_name);
                        } else if ed.current_field == 7 {
                            let p = crate::strutil::pop_char(&mut ed.description);
                        }
                    },
                    None => {},
                }
            },
            Key::Char(c) => {
                match &mut self.editing_host {
                    Some(ed) => {
                        if ed.current_field == 8 {
                            if c == ' ' {
                                ed.visible = !ed.visible;
                            } else {
                                let lc = crate::strutil::lower_char_exec(c);
                                if lc == 't' || lc == 'y' {
                                    ed.visible = true;
                                } else if lc == 'f' || lc == 'n' {
                                    ed.visible = false;
                                }
                            }
                        } else if ed.current_field == 0 {
                            crate::strutil::push_char(&mut ed.name, c);
                        } else if ed.current_field == 1 {
                            crate::strutil::push_char(&mut ed.hostname, c);
                        } else if ed.current_field == 2 {
                            crate::strutil::push_char(&mut ed.user, c);
                        } else if ed.current_field == 3 {
                            crate::strutil::push_char(&mut ed.port, c);
                        } else if ed.current_field == 4 {
                            crate::strutil::push_char(&mut ed.identity_file, c);
                        } else if ed.current_field == 5 {
                            crate::strutil::push_char(&mut ed.folder, c);
                        } else if ed.current_field == 6 {
                            crate::strutil::push_char(&mut ed.display_name, c);
                        } else {
                            crate::strutil::push_char(&mut ed.description, c);
                        }
                    },
                    None => {},
                }
            },
            _ => {},
        }
        Effect::Nothing
    }

    fn handle_delete_confirm_input(&mut self, key: Key) -> (eff: Effect)
        requires
            old(self).wf(),
            old(self).mode == AppMode::ConfirmDelete,
        ensures
            final(self).wf(),
            delete_confirm_post(*old(self), *final(self), key, eff),
    {
        match key {
            Key::Char(c) => {
                if c == 'y' || c == 'Y' {
                    self.confirm_delete();
                } else if c == 'n' || c == 'N' {
                    self.delete_target = None;
                    self.mode = AppMode::ConfigManagement;
                }
            },
            Key::Esc => {
                self.delete_target = None;
                self.mode = AppMode::ConfigManagement;
            },
            _ => {},
        }
        Effect::Nothing
    }

    fn handle_discard_edit_confirm_input(&mut self, key: Key) -> (eff: Effect)
        requires
            old(self).wf(),
            old(self).mode == AppMode::ConfirmDiscardEdit,
        ensures
            final(self).wf(),
            discard_edit_post(*old(self), *final(self), key, eff),
    {
        match key {
            Key::Char(c) => {
                if c == 'y' || c == 'Y' {
                    self.discard_current_edit();
                    self.editing_host = None;
                    self.editing_host_index = None;
                    self.current_edit_change_index = None;
                    self.mode = AppMode::ConfigManagement;
                } else if c == 'n' || c == 'N' {
                    self.mode = AppMode::EditingHost;
                }
            },
            Key::Esc => {
                self.mode = AppMode::EditingHost;
            },
            _ => {},
        }
        Effect::Nothing
    }

    fn handle_review_input(&mut self, key: Key) -> (eff: Effect)
        requires
            old(self).wf(),
            old(self).mode == AppMode::ReviewChanges,
        ensures
            final(self).wf(),
            review_post(*old(self), *final(self), key, eff),
    {
        match key {
            Key::Char(c) => {
                if c == 'y' || c == 'Y' {
                    return Effect::PersistRequest;
                } else if c == 'n' || c == 'N' {
                    self.discard_changes();
                    self.mode = AppMode::Normal;
                    self.review_scroll = 0;
                }
            },
            Key::Esc => {
                self.mode = AppMode::ConfigManagement;
                self.review_scroll = 0;
            },
            Key::Up => {
                if self.review_scroll > 0 {
                    self.review_scroll = self.review_scroll - 1;
                }
            },
            Key::Down => {
                if self.review_scroll < usize::MAX {
                    self.review_scroll = self.review_scroll + 1;
                }
            },
            Key::PageUp => {
                if self.review_scroll >= 10 {
                    self.review_scroll = self.review_scroll - 10;
                } else {
                    self.review_scroll = 0;
                }
            },
            Key::PageDown => {
                if self.review_scroll <= usize::MAX - 10 {
                    self.review_scroll = self.review_scroll + 10;
                } else {
                    self.review_scroll = usize::MAX;
                }
            },
            _ => {},
        }
        Effect::Nothing
    }

    fn handle_version_input(&mut self, key: Key) -> (eff: Effect)
        requires
            old(self).wf(),
            old(self).mode == AppMode::ShowVersion,
        ensures
            final(self).wf(),
            version_post(*old(self), *final(self), key, eff),
    {
        match key {
            Key::Esc | Key::Enter => {
                self.mode = AppMode::Normal;
            },
            Key::Char(c) => {
                if c == 'q' {
                    self.mode = AppMode::Normal;
                }
            },
            _ => {},
        }
        Effect::Nothing
    }

    /// Renders the staged changes as the review diff.
    pub fn generate_diff_lines(&self) -> (r: Vec<String>)
        ensures
            r.deep_view() == crate::diff::diff_spec(self.pending_changes.deep_view()),
    {
        crate::diff::diff_lines(&self.pending_changes)
    }

    /// The distinct folder names in use, visible hosts or not, sorted
    /// lexicographically.
    pub fn get_available_folders(&self) -> (r: Vec<String>)
        ensures
            r.deep_view() == crate::tree::sort_le(
                crate::tree::name_le(),
                crate::tree::all_folder_names_unsorted(self.hosts.deep_view()),
            ),
    {
        crate::tree::collect_available_folders(&self.hosts)
    }

    /// Dispatches one key press to the handler of the current mode. The
    /// returned effect names the external work the caller must perform.
    pub fn handle_event(&mut self, key: Key) -> (eff: Effect)
        requires
            old(self).wf(),
        ensures
            final(self).wf(),
            step_post(*old(self), *final(self), key, eff),
    {
        match self.mode {
            AppMode::Search => self.handle_search_input(key),
            AppMode::Normal => self.handle_normal_input(key),
            AppMode::ConfigManagement => self.handle_config_input(key),
            AppMode::EditingHost => self.handle_editing_input(key),
            AppMode::ConfirmDelete => self.handle_delete_confirm_input(key),
            AppMode::ConfirmDiscardEdit => self.handle_discard_edit_confirm_input(key),
            AppMode::ReviewChanges => self.handle_review_input(key),
            AppMode::ShowVersion => self.handle_version_input(key),
        }
    }
}

/// The build metadata the version screen shows. The values come from the
/// packaging layer, which alone knows them.
pub struct VersionInfo {
    pub name: String,
    pub version: String,
    pub authors: String,
    pub license: String,
    pub description: String,
    pub repository: String,
}

} // verus!
