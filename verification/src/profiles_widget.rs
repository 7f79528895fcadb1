//! The profiles screen: choosing, adding, editing and deleting profiles.
use crate::input::{KeyCode, KeyInput};
use crate::profile::{S3Profile, S3Secret};
use crate::profile_info::{profile_fields, ProfileInfo, SelectedField};
use crate::selection::ListSelection;
use vstd::prelude::*;

verus! {

/// The form for a new profile.
pub struct NewProfileWidget<'a> {
    pub info: ProfileInfo<'a>,
}

impl<'a> Default for NewProfileWidget<'a> {
    fn default() -> (r: Self)
        ensures
            r.info.wf(),
            r.info.fresh(),
            r.info.selected == SelectedField::Name,
            r.info.texts() == seq![Seq::<char>::empty(); 5],
            r.info.unmasked(),
    {
        NewProfileWidget { info: ProfileInfo::default() }
    }
}

/// The form that edits the profile at `index`.
pub struct EditProfileWidget<'a> {
    pub index: usize,
    pub info: ProfileInfo<'a>,
}

impl<'a> EditProfileWidget<'a> {
    /// A form over `profile`, which stands at `index`.
    pub fn new(index: usize, profile: S3Profile) -> (r: Self)
        ensures
            r.index == index,
            r.info.wf(),
            r.info.fresh(),
            r.info.selected == SelectedField::Name,
            r.info.texts() == profile_fields(profile),
            r.info.unmasked(),
    {
        Self { index, info: ProfileInfo::from_existing(profile) }
    }
}

/// What the profiles screen shows.
pub enum CurrentProfilesWindow<'a> {
    ProfileSelection(ListSelection),
    NewProfile(NewProfileWidget<'a>),
    EditProfile(EditProfileWidget<'a>),
    DeleteProfileConfirmation(usize),
}

impl<'a> Default for CurrentProfilesWindow<'a> {
    fn default() -> (r: Self)
        ensures
            r == CurrentProfilesWindow::<'a>::ProfileSelection(ListSelection { selected: None, offset: 0 }),
    {
        CurrentProfilesWindow::ProfileSelection(ListSelection::new())
    }
}

/// What the caller does after a key on the profiles screen.
pub enum ProfilesAction {
    /// Nothing.
    Nothing,
    /// Store the secret in the keyring, then call `finish_save`.
    Save,
    /// Connect with this profile.
    Connect(S3Profile),
}

/// The profiles screen: what it shows and the saved profiles.
pub struct ProfilesWidget<'a> {
    pub window: CurrentProfilesWindow<'a>,
    pub secret: S3Secret,
}

/// The list selection of a fresh profile list: nothing selected.
pub open spec fn fresh_selection<'a>() -> CurrentProfilesWindow<'a> {
    CurrentProfilesWindow::ProfileSelection(ListSelection { selected: None, offset: 0 })
}

impl<'a> ProfilesWidget<'a> {
    /// The screen over the profiles of `secret`, with the list shown.
    pub fn with_secret(secret: S3Secret) -> (r: Self)
        ensures
            r.window == fresh_selection::<'a>(),
            r.secret == secret,
    {
        Self { window: CurrentProfilesWindow::default(), secret }
    }

    /// The forms on the screen are usable.
    pub open spec fn wf(&self) -> bool {
        match self.window {
            CurrentProfilesWindow::NewProfile(w) => w.info.wf(),
            CurrentProfilesWindow::EditProfile(w) => w.info.wf(),
            _ => true,
        }
    }

    /// Keeps what an open form holds in the profiles: appended for a new
    /// profile, in place for an edited one, which fails when its index
    /// is past the end. Says whether the profiles changed and must be
    /// saved.
    pub fn try_save_profile(&mut self) -> (r: Result<bool, String>)
        requires
            old(self).wf(),
        ensures
            final(self).window == old(self).window,
            match old(self).window {
                CurrentProfilesWindow::NewProfile(w) => r == Ok::<bool, String>(true) && exists|
                    p: S3Profile,
                |
                    profile_fields(p) == w.info.texts() && final(self).secret.profiles@ == old(self).secret.profiles@.push(p),
                CurrentProfilesWindow::EditProfile(w) => if w.index < old(self).secret.profiles.len() {
                    r == Ok::<bool, String>(true) && exists|p: S3Profile|
                        profile_fields(p) == w.info.texts() && final(self).secret.profiles@ == old(self).secret.profiles@.update(w.index as int, p)
                } else {
                    r is Err && r->Err_0@ == "Could not edit profile"@ && final(self).secret == old(self).secret
                },
                _ => r == Ok::<bool, String>(false) && final(self).secret == old(self).secret,
            },
    {
        match &self.window {
            CurrentProfilesWindow::NewProfile(widget) => {
                let new_profile = widget.info.to_profile();
                self.secret.profiles.push(new_profile);
                Ok(true)
            },
            CurrentProfilesWindow::EditProfile(widget) => {
                let new_profile = widget.info.to_profile();
                if widget.index < self.secret.profiles.len() {
                    self.secret.profiles.set(widget.index, new_profile);
                    Ok(true)
                } else {
                    Err(String::from_str("Could not edit profile"))
                }
            },
            _ => Ok(false),
        }
    }

    /// Shows the list again once the profiles were saved.
    pub fn finish_save(&mut self)
        ensures
            final(self).window == fresh_selection::<'a>(),
            final(self).secret == old(self).secret,
    {
        self.window = CurrentProfilesWindow::default();
    }
}


impl<'a> ProfilesWidget<'a> {
    /// The form of the screen, when one is open, is fresh in this sense:
    /// usable, no input masked, focused on the name, and holding `texts`.
    pub open spec fn opened_form(info: ProfileInfo<'a>, texts: Seq<Seq<char>>) -> bool {
        &&& info.wf()
        &&& info.fresh()
        &&& info.unmasked()
        &&& info.selected == SelectedField::Name
        &&& info.texts() == texts
    }

    /// What a key does on an open form that `new` holds, given the form
    /// `old` held: Esc leaves it, Up and Down move the focus, another key
    /// edits the focused field. (Enter is handled apart.)
    pub open spec fn form_key(old: ProfileInfo<'a>, new: ProfileInfo<'a>, key: KeyInput) -> bool {
        &&& new.wf()
        &&& match key.code {
            KeyCode::Down => new.selected == crate::profile_info::field_at(
                (crate::profile_info::field_index(old.selected) + 1) % 5,
            ) && new.texts() == old.texts(),
            KeyCode::Up => new.selected == crate::profile_info::field_at(
                (crate::profile_info::field_index(old.selected) + 5 - 1) % 5,
            ) && new.texts() == old.texts(),
            _ => exists|handled: bool| old.edit_step(&new, key, handled),
        }
    }

    /// The profile that Enter connects with, or that 'y' deletes, is one
    /// of the saved profiles.
    pub open spec fn key_in_range(&self, key: KeyInput) -> bool {
        &&& key.code == KeyCode::Enter ==> (self.window matches CurrentProfilesWindow::ProfileSelection(s)
            ==> (s.selected matches Some(i) ==> i < self.secret.profiles.len()))
        &&& key.code == KeyCode::Char('y') ==> (self.window matches CurrentProfilesWindow::DeleteProfileConfirmation(i)
            ==> i < self.secret.profiles.len())
    }

    /// What a key does on this screen, `o` before and `n` after, with
    /// `r` what came back: see `handle_key`.
    pub open spec fn key_step(o: Self, n: Self, key: KeyInput, r: Result<ProfilesAction, String>) -> bool {
        let unchanged = n.window == o.window && n.secret == o.secret;
        let same_secret = n.secret == o.secret;
        let profiles = o.secret.profiles@;
        let nothing = r matches Ok(ProfilesAction::Nothing);
        match o.window {
            CurrentProfilesWindow::ProfileSelection(sel) => match key.code {
                KeyCode::Char('n') => {
                    &&& nothing
                    &&& same_secret
                    &&& n.window matches CurrentProfilesWindow::NewProfile(w)
                        && Self::opened_form(w.info, seq![Seq::<char>::empty(); 5])
                },
                KeyCode::Char('e') => match sel.selected {
                    None => nothing && unchanged,
                    Some(i) => if i < profiles.len() {
                        &&& nothing
                        &&& same_secret
                        &&& n.window matches CurrentProfilesWindow::EditProfile(w)
                            && w.index == i && Self::opened_form(
                            w.info,
                            profile_fields(profiles[i as int]),
                        )
                    } else {
                        &&& r is Err
                        &&& r->Err_0@ == "Could not get profile"@
                        &&& unchanged
                    },
                },
                KeyCode::Delete => nothing && same_secret && match sel.selected {
                    None => n.window == o.window,
                    Some(i) => n.window
                        == CurrentProfilesWindow::<'a>::DeleteProfileConfirmation(i),
                },
                KeyCode::Down => nothing && same_secret && n.window
                    == CurrentProfilesWindow::<'a>::ProfileSelection(sel.moved_next()),
                KeyCode::Up => nothing && same_secret && n.window
                    == CurrentProfilesWindow::<'a>::ProfileSelection(sel.moved_previous()),
                KeyCode::Enter => unchanged && match sel.selected {
                    None => nothing,
                    Some(i) => r == Ok::<ProfilesAction, String>(
                        ProfilesAction::Connect(profiles[i as int]),
                    ),
                },
                _ => nothing && unchanged,
            },
            CurrentProfilesWindow::NewProfile(w) => match key.code {
                KeyCode::Esc => nothing && same_secret && n.window
                    == fresh_selection::<'a>(),
                KeyCode::Enter => {
                    &&& r matches Ok(ProfilesAction::Save)
                    &&& n.window == o.window
                    &&& exists|p: S3Profile|
                        profile_fields(p) == w.info.texts() && n.secret.profiles@
                            == profiles.push(p)
                },
                _ => {
                    &&& nothing
                    &&& same_secret
                    &&& n.window matches CurrentProfilesWindow::NewProfile(w2)
                        && Self::form_key(w.info, w2.info, key)
                },
            },
            CurrentProfilesWindow::EditProfile(w) => match key.code {
                KeyCode::Esc => nothing && same_secret && n.window
                    == fresh_selection::<'a>(),
                KeyCode::Enter => if w.index < profiles.len() {
                    &&& r matches Ok(ProfilesAction::Save)
                    &&& n.window == o.window
                    &&& exists|p: S3Profile|
                        profile_fields(p) == w.info.texts() && n.secret.profiles@
                            == profiles.update(w.index as int, p)
                } else {
                    &&& r is Err
                    &&& r->Err_0@ == "Could not edit profile"@
                    &&& unchanged
                },
                _ => {
                    &&& nothing
                    &&& same_secret
                    &&& n.window matches CurrentProfilesWindow::EditProfile(w2)
                        && w2.index == w.index && Self::form_key(w.info, w2.info, key)
                },
            },
            CurrentProfilesWindow::DeleteProfileConfirmation(i) => match key.code {
                KeyCode::Char('y') => {
                    &&& r matches Ok(ProfilesAction::Save)
                    &&& n.window == o.window
                    &&& n.secret.profiles@ == profiles.remove(i as int)
                },
                KeyCode::Char('n') => nothing && same_secret && n.window
                    == fresh_selection::<'a>(),
                _ => nothing && unchanged,
            },
        }
    }

    /// Handles a key: on the list, 'n' opens a new form, 'e' the form of
    /// the selected profile, Delete asks to delete it, Up and Down move,
    /// Enter connects with it; on a form, Esc goes back, Enter keeps the
    /// form in the profiles and asks for a save; on the question, 'y'
    /// deletes and asks for a save, 'n' goes back.
    #[verifier::rlimit(30)]
    pub fn handle_key(&mut self, key: KeyInput) -> (r: Result<ProfilesAction, String>)
        requires
            old(self).wf(),
            old(self).key_in_range(key),
        ensures
            final(self).wf(),
            Self::key_step(*old(self), *final(self), key, r),
    {
        match &mut self.window {
            CurrentProfilesWindow::ProfileSelection(selection) => match key.code {
                KeyCode::Char('n') => {
                    self.window = CurrentProfilesWindow::NewProfile(NewProfileWidget::default());
                },
                KeyCode::Char('e') => {
                    match selection.selected() {
                        Some(ind) => {
                            if ind < self.secret.profiles.len() {
                                let profile = self.secret.profiles[ind].duplicate();
                                self.window = CurrentProfilesWindow::EditProfile(
                                    EditProfileWidget::new(ind, profile),
                                );
                            } else {
                                return Err(String::from_str("Could not get profile"));
                            }
                        },
                        None => {},
                    }
                },
                KeyCode::Delete => {
                    match selection.selected() {
                        Some(ind) => {
                            self.window = CurrentProfilesWindow::DeleteProfileConfirmation(ind);
                        },
                        None => {},
                    }
                },
                KeyCode::Down => selection.select_next(),
                KeyCode::Up => selection.select_previous(),
                KeyCode::Enter => {
                    match selection.selected() {
                        Some(ind) => {
                            return Ok(ProfilesAction::Connect(self.secret.profiles[ind].duplicate()));
                        },
                        None => {},
                    }
                },
                _ => {},
            },
            CurrentProfilesWindow::NewProfile(new_profile) => match key.code {
                KeyCode::Esc => self.window = CurrentProfilesWindow::default(),
                KeyCode::Down => new_profile.info.select_next(),
                KeyCode::Up => new_profile.info.select_previous(),
                KeyCode::Enter => {
                    let _ = self.try_save_profile();
                    return Ok(ProfilesAction::Save);
                },
                _ => {
                    new_profile.info.edit_current_field(key);
                },
            },
            CurrentProfilesWindow::EditProfile(edit_profile) => match key.code {
                KeyCode::Esc => self.window = CurrentProfilesWindow::default(),
                KeyCode::Down => edit_profile.info.select_next(),
                KeyCode::Up => edit_profile.info.select_previous(),
                KeyCode::Enter => {
                    return match self.try_save_profile() {
                        Ok(_) => Ok(ProfilesAction::Save),
                        Err(e) => Err(e),
                    };
                },
                _ => {
                    edit_profile.info.edit_current_field(key);
                },
            },
            CurrentProfilesWindow::DeleteProfileConfirmation(delete_ind) => match key.code {
                KeyCode::Char('y') => {
                    let ind = *delete_ind;
                    self.secret.profiles.remove(ind);
                    return Ok(ProfilesAction::Save);
                },
                KeyCode::Char('n') => self.window = CurrentProfilesWindow::default(),
                _ => {},
            },
        }
        Ok(ProfilesAction::Nothing)
    }

    /// The question asked before the profile at `index` is deleted.
    pub fn delete_message(&self, index: usize) -> (r: String)
        requires
            index < self.secret.profiles.len(),
        ensures
            r@ == "Are you sure you want to delete profile \""@ + self.secret.profiles[index as int].name@
                + "\"?"@,
    {
        let mut message = String::from_str("Are you sure you want to delete profile \"");
        message.append(self.secret.profiles[index].name.as_str());
        message.append("\"?");
        message
    }


    /// The keys offered under the profile list: fewer when there is no
    /// profile or none is selected.
    pub fn selection_controls(&self, selection: &ListSelection) -> (r: &'static str)
        ensures
            r@ == (if self.secret.profiles.len() == 0 {
                "| New profile: n | Quit: Esc |"@
            } else if selection.selected is None {
                "| Connect: Enter | New profile: n | Quit: q |"@
            } else {
                "| Connect: Enter | New profile: n | Edit profile: e | Delete profile: Del | Quit: q |"@
            }),
    {
        if self.secret.profiles.len() == 0 {
            "| New profile: n | Quit: Esc |"
        } else if selection.selected().is_none() {
            "| Connect: Enter | New profile: n | Quit: q |"
        } else {
            "| Connect: Enter | New profile: n | Edit profile: e | Delete profile: Del | Quit: q |"
        }
    }
}

/// 'e' on the list opens the form of the selected profile: it edits that
/// profile's place, holds that profile's five fields, and saves nothing.
pub proof fn lemma_edit_opens_selected_profile<'a>(
    o: ProfilesWidget<'a>,
    n: ProfilesWidget<'a>,
    key: KeyInput,
    r: Result<ProfilesAction, String>,
    i: usize,
)
    requires
        o.window is ProfileSelection,
        o.window->ProfileSelection_0.selected == Some(i),
        i < o.secret.profiles.len(),
        key.code == KeyCode::Char('e'),
        ProfilesWidget::key_step(o, n, key, r),
    ensures
        r is Ok && r->Ok_0 is Nothing,
        n.secret == o.secret,
        n.window is EditProfile,
        n.window->EditProfile_0.index == i,
        ({
            let texts = n.window->EditProfile_0.info.texts();
            let p = o.secret.profiles[i as int];
            &&& texts.len() == 5
            &&& texts[0] == p.name@
            &&& texts[1] == p.endpoint@
            &&& texts[2] == p.region@
            &&& texts[3] == p.access_key_id@
            &&& texts[4] == p.secret_access_key@
        }),
{
}

} // verus!
