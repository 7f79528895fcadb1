//! The application: which screen shows, the error popup over it, and what
//! a key or a report from a background task does to them.
use crate::events::{Popup, S3Update};
use crate::input::{KeyCode, KeyInput, CONTROL};
use crate::main_menu::{MainAction, MainMenuWidget};
use crate::profile::S3Secret;
use crate::selection::ListSelection;
use crate::profiles_widget::{fresh_selection, ProfilesAction, ProfilesWidget};
use crate::progress::{entries_after_update, keys_unique, lemma_update_keeps_keys_unique};
use vstd::prelude::*;

verus! {

/// The screen that shows.
pub enum CurrentWindow<'a> {
    Profiles(ProfilesWidget<'a>),
    Main(MainMenuWidget<'a>),
}

/// The screen and the error popup over it, if any.
pub struct AppState<'a> {
    pub window: CurrentWindow<'a>,
    pub popup: Option<Popup>,
}

impl<'a> AppState<'a> {
    /// A state that shows `draw_state`, with `popup` over it.
    pub fn new(draw_state: CurrentWindow<'a>, popup: Option<Popup>) -> (r: Self)
        ensures
            r.window == draw_state,
            r.popup == popup,
    {
        Self { window: draw_state, popup }
    }

    /// The screen is usable.
    pub open spec fn wf(&self) -> bool {
        match self.window {
            CurrentWindow::Profiles(p) => p.wf(),
            CurrentWindow::Main(m) => m.wf(),
        }
    }
}

/// What the caller does after a key.
pub enum AppAction {
    /// Nothing.
    Nothing,
    /// What the profiles screen asks for.
    Profiles(ProfilesAction),
    /// What the main screen asks for.
    Main(MainAction),
}

/// 'q' with any modifiers, or Control and 'c' or 'C', quits.
pub open spec fn is_quit_key(key: KeyInput) -> bool {
    ||| key.code == KeyCode::Char('q')
    ||| key.modifiers == CONTROL && (key.code == KeyCode::Char('c') || key.code == KeyCode::Char('C'))
}

/// The popup that shows `message`.
pub open spec fn error_popup(message: String) -> Option<Popup> {
    Some(Popup { message })
}

/// The application: whether it still runs, and its state.
pub struct App {
    pub running: bool,
    pub state: Box<AppState<'static>>,
}

impl App {
    /// The application before it runs, on the profiles of `secret`.
    pub fn new(secret: S3Secret) -> (r: Self)
        ensures
            !r.running,
            r.state.window matches CurrentWindow::Profiles(p) && p.window == fresh_selection()
                && p.secret == secret,
            r.state.popup is None,
            r.wf(),
    {
        App {
            running: false,
            state: Box::new(
                AppState::new(CurrentWindow::Profiles(ProfilesWidget::with_secret(secret)), None),
            ),
        }
    }

    /// The screen is usable.
    pub open spec fn wf(&self) -> bool {
        self.state.wf()
    }

    /// The key goes to the screen, and what it needs of the saved
    /// profiles or the listed buckets is there.
    pub open spec fn key_in_range(&self, key: KeyInput) -> bool {
        !is_quit_key(key) && self.state.popup is None ==> match self.state.window {
            CurrentWindow::Profiles(p) => p.key_in_range(key),
            CurrentWindow::Main(m) => m.key_in_range(key),
        }
    }

    /// What a key does, `o` before and `n` after, with `r` what came
    /// back: see `handle_key`.
    pub open spec fn key_step(o: App, n: App, key: KeyInput, r: AppAction) -> bool {
        if is_quit_key(key) {
            &&& !n.running
            &&& n.state == o.state
            &&& r is Nothing
        } else if o.state.popup is Some {
            &&& n.running == o.running
            &&& n.state.window == o.state.window
            &&& n.state.popup == if key.code == KeyCode::Enter {
                None
            } else {
                o.state.popup
            }
            &&& r is Nothing
        } else {
            &&& n.running == o.running
            &&& match o.state.window {
                CurrentWindow::Profiles(p) => {
                    &&& n.state.window matches CurrentWindow::Profiles(p2)
                    &&& exists|res: Result<ProfilesAction, String>|
                        #![trigger ProfilesWidget::key_step(p, p2, key, res)]
                        ProfilesWidget::key_step(p, p2, key, res) && match res {
                            Ok(a) => r == AppAction::Profiles(a) && n.state.popup is None,
                            Err(e) => r is Nothing && n.state.popup == error_popup(e),
                        }
                },
                CurrentWindow::Main(m) => {
                    &&& n.state.window matches CurrentWindow::Main(m2)
                    &&& exists|res: Result<MainAction, String>|
                        #![trigger MainMenuWidget::key_step(m, m2, key, res)]
                        MainMenuWidget::key_step(m, m2, key, res) && match res {
                            Ok(a) => r == AppAction::Main(a) && n.state.popup is None,
                            Err(e) => r is Nothing && n.state.popup == error_popup(e),
                        }
                },
            }
        }
    }

    /// Stops the application.
    pub fn quit(&mut self)
        ensures
            !final(self).running,
            final(self).state == old(self).state,
    {
        self.running = false;
    }

    /// Handles a key: a quit key stops the application; while the error
    /// popup shows, Enter closes it and other keys do nothing; else the
    /// key goes to the screen, and an error it reports opens the popup.
    pub fn handle_key(&mut self, key: KeyInput) -> (r: AppAction)
        requires
            old(self).wf(),
            old(self).key_in_range(key),
        ensures
            final(self).wf(),
            Self::key_step(*old(self), *final(self), key, r),
    {
        let quit = key.code == KeyCode::Char('q') || (key.modifiers == CONTROL && (key.code
            == KeyCode::Char('c') || key.code == KeyCode::Char('C')));
        if quit {
            self.quit();
            return AppAction::Nothing;
        }
        if self.state.popup.is_some() {
            if key.code == KeyCode::Enter {
                self.state.popup = None;
            }
            return AppAction::Nothing;
        }
        let outcome: Result<AppAction, String> = match &mut self.state.window {
            CurrentWindow::Profiles(profiles) => match profiles.handle_key(key) {
                Ok(a) => Ok(AppAction::Profiles(a)),
                Err(e) => Err(e),
            },
            CurrentWindow::Main(main) => match main.handle_key(key) {
                Ok(a) => Ok(AppAction::Main(a)),
                Err(e) => Err(e),
            },
        };
        match outcome {
            Ok(a) => a,
            Err(e) => {
                self.state.popup = Some(Popup::new(e));
                AppAction::Nothing
            },
        }
    }
}

/// `n` is the transfers pane `o` after the report `u` on a download
/// (`download`) or an upload.
pub open spec fn transfer_reported(
    o: crate::progress::FilesProgressWidget,
    n: crate::progress::FilesProgressWidget,
    download: bool,
    u: crate::events::FileUpdate,
) -> bool {
    let k = (u.key@, u.bucket@);
    &&& n.selected == o.selected
    &&& n.unfinished_uploads == o.unfinished_uploads
    &&& n.is_active == o.is_active
    &&& n.downloads.state == o.downloads.state
    &&& n.uploads.state == o.uploads.state
    &&& if download {
        &&& n.downloads.entries() == entries_after_update(o.downloads.entries(), k, u.result)
        &&& n.uploads == o.uploads
    } else {
        &&& n.uploads.entries() == entries_after_update(o.uploads.entries(), k, u.result)
        &&& n.downloads == o.downloads
    }
}

impl App {
    /// What a report from a background task does, `o` before and `n`
    /// after: see `handle_s3_events`.
    pub open spec fn s3_step(o: App, n: App, update: S3Update) -> bool {
        &&& n.running == o.running
        &&& match o.state.window {
            CurrentWindow::Main(m) => {
                &&& n.state.window matches CurrentWindow::Main(m2)
                &&& match update {
                    S3Update::ListObjects(list) => {
                        &&& MainMenuWidget::shows_listing(m, m2, list)
                        &&& n.state.popup == o.state.popup
                    },
                    S3Update::ObjectInfo(info) => {
                        &&& m2 == MainMenuWidget { object_info: Some(info), ..m }
                        &&& n.state.popup == o.state.popup
                    },
                    S3Update::Error(e) => {
                        &&& m2 == m
                        &&& n.state.popup == error_popup(e)
                    },
                    S3Update::DownloadProgress(u) => {
                        &&& m2 == MainMenuWidget { files_progress: m2.files_progress, ..m }
                        &&& transfer_reported(m.files_progress, m2.files_progress, true, u)
                        &&& n.state.popup == match u.result {
                            Ok(_) => o.state.popup,
                            Err(e) => error_popup(e),
                        }
                    },
                    S3Update::UploadProgress(u) => {
                        &&& m2 == MainMenuWidget { files_progress: m2.files_progress, ..m }
                        &&& transfer_reported(m.files_progress, m2.files_progress, false, u)
                        &&& n.state.popup == match u.result {
                            Ok(_) => o.state.popup,
                            Err(e) => error_popup(e),
                        }
                    },
                }
            },
            CurrentWindow::Profiles(_) => {
                &&& n.state.window == o.state.window
                &&& n.state.popup == match update {
                    S3Update::Error(e) => error_popup(e),
                    _ => o.state.popup,
                }
            },
        }
    }

    /// Applies a report from a background task. On the main screen a
    /// listing is shown, object details are kept, a transfer's progress
    /// is updated (a finished or failed transfer leaves its list) and an
    /// error opens the popup; elsewhere only an error does something.
    pub fn handle_s3_events(&mut self, s3_update: S3Update)
        requires
            old(self).wf(),
            s3_update matches S3Update::ListObjects(list) ==> (old(self).state.window is Main ==> forall|k: int|
                0 <= k < list.objects.len() ==> (#[trigger] list.objects[k]).key is Some),
        ensures
            final(self).wf(),
            Self::s3_step(*old(self), *final(self), s3_update),
    {
        let error: Option<String> = match &mut self.state.window {
            CurrentWindow::Main(main) => match s3_update {
                S3Update::ListObjects(list) => {
                    main.set_bucket_objects(list);
                    None
                },
                S3Update::ObjectInfo(info) => {
                    main.object_info = Some(info);
                    None
                },
                S3Update::Error(err) => Some(err),
                S3Update::DownloadProgress(update) => {
                    proof {
                        lemma_update_keeps_keys_unique(
                            main.files_progress.downloads.entries(),
                            (update.key@, update.bucket@),
                            update.result,
                        );
                    }
                    main.files_progress.downloads.apply_update(update)
                },
                S3Update::UploadProgress(update) => {
                    proof {
                        lemma_update_keeps_keys_unique(
                            main.files_progress.uploads.entries(),
                            (update.key@, update.bucket@),
                            update.result,
                        );
                    }
                    main.files_progress.uploads.apply_update(update)
                },
            },
            CurrentWindow::Profiles(_) => match s3_update {
                S3Update::Error(err) => Some(err),
                _ => None,
            },
        };
        match error {
            Some(message) => {
                self.state.popup = Some(Popup::new(message));
            },
            None => {},
        }
    }

    /// Opens the error popup with `message`.
    pub fn show_error(&mut self, message: String)
        ensures
            final(self).running == old(self).running,
            final(self).state.window == old(self).state.window,
            final(self).state.popup == error_popup(message),
    {
        self.state.popup = Some(Popup::new(message));
    }

    /// Takes the outcome of storing the profiles that the profiles screen
    /// asked to save: on success the list shows again, on failure the
    /// popup tells why and the screen stays as it was.
    pub fn profiles_saved(&mut self, result: Result<(), String>)
        requires
            old(self).wf(),
        ensures
            final(self).wf(),
            final(self).running == old(self).running,
            match result {
                Ok(_) => {
                    &&& final(self).state.popup == old(self).state.popup
                    &&& match old(self).state.window {
                        CurrentWindow::Profiles(p) => final(self).state.window
                            == CurrentWindow::Profiles(ProfilesWidget { window: fresh_selection(), ..p }),
                        _ => final(self).state.window == old(self).state.window,
                    }
                },
                Err(e) => {
                    &&& final(self).state.window == old(self).state.window
                    &&& final(self).state.popup == error_popup(e)
                },
            },
    {
        match result {
            Ok(()) => match &mut self.state.window {
                CurrentWindow::Profiles(profiles) => profiles.finish_save(),
                _ => {},
            },
            Err(e) => self.show_error(e),
        }
    }

    /// Takes the outcome of connecting with a profile, the buckets it
    /// lists: on success the main screen shows them, on failure the popup
    /// tells why.
    pub fn connected(&mut self, result: Result<Vec<String>, String>)
        requires
            old(self).wf(),
        ensures
            final(self).wf(),
            final(self).running == old(self).running,
            match result {
                Ok(buckets) => {
                    &&& final(self).state.popup is None
                    &&& final(self).state.window matches CurrentWindow::Main(m)
                        && MainMenuWidget::opened_over(m, buckets)
                },
                Err(e) => {
                    &&& final(self).state.window == old(self).state.window
                    &&& final(self).state.popup == error_popup(e)
                },
            },
    {
        match result {
            Ok(buckets) => {
                self.state = Box::new(AppState::new(CurrentWindow::Main(MainMenuWidget::new(buckets)), None));
            },
            Err(e) => self.show_error(e),
        }
    }

    /// Takes the outcome of creating a folder from the input popup: on
    /// success the popup closes, on failure the error popup tells why.
    pub fn folder_created(&mut self, result: Result<(), String>)
        requires
            old(self).wf(),
        ensures
            final(self).wf(),
            final(self).running == old(self).running,
            match result {
                Ok(_) => {
                    &&& final(self).state.popup == old(self).state.popup
                    &&& match old(self).state.window {
                        CurrentWindow::Main(m) => final(self).state.window
                            == CurrentWindow::Main(MainMenuWidget { input_popup: None, ..m }),
                        _ => final(self).state.window == old(self).state.window,
                    }
                },
                Err(e) => {
                    &&& final(self).state.window == old(self).state.window
                    &&& final(self).state.popup == error_popup(e)
                },
            },
    {
        match result {
            Ok(()) => match &mut self.state.window {
                CurrentWindow::Main(main) => main.close_input_popup(),
                _ => {},
            },
            Err(e) => self.show_error(e),
        }
    }

    /// Takes the outcome of creating a bucket from the input popup, the
    /// buckets listed after it: on success they show and the popup
    /// closes, on failure the error popup tells why.
    pub fn bucket_created(&mut self, result: Result<Vec<String>, String>)
        requires
            old(self).wf(),
        ensures
            final(self).wf(),
            final(self).running == old(self).running,
            match result {
                Ok(buckets) => {
                    &&& final(self).state.popup == old(self).state.popup
                    &&& match old(self).state.window {
                        CurrentWindow::Main(m) => final(self).state.window matches CurrentWindow::Main(m2)
                            && m2 == (MainMenuWidget { buckets: m2.buckets, input_popup: None, ..m })
                            && m2.buckets.list == buckets && m2.buckets.state == (ListSelection {
                            selected: None,
                            offset: 0,
                        }) && m2.buckets.is_active,
                        _ => final(self).state.window == old(self).state.window,
                    }
                },
                Err(e) => {
                    &&& final(self).state.window == old(self).state.window
                    &&& final(self).state.popup == error_popup(e)
                },
            },
    {
        match result {
            Ok(buckets) => match &mut self.state.window {
                CurrentWindow::Main(main) => main.bucket_created(buckets),
                _ => {},
            },
            Err(e) => self.show_error(e),
        }
    }
}

} // verus!
