//! The shortcut sender: where the server's Windows shortcut is created and
//! to which folders (the user's desktop, the start menu) it is copied.
use vstd::prelude::*;
use crate::error::SendError;
use crate::paths::{join, join_path};

verus! {

/// File name of the server's shortcut.
pub const LNK_NAME: &'static str = "ankiserver.lnk";

/// The start menu folder that receives the shortcut.
pub const START: &'static str = r"C:\ProgramData\Microsoft\Windows\Start Menu\Programs";

/// File name of the server's executable, next to the sender.
pub const SERVER_EXE: &'static str = "ankiserver.exe";

/// Name of the desktop folder inside a user profile.
pub const DESKTOP: &'static str = "Desktop";

/// The desktop folder of the user whose profile folder is `user_profile`.
pub open spec fn desktop_dir_spec(user_profile: Seq<char>) -> Seq<char> {
    join(user_profile, DESKTOP@)
}

/// The desktop folder of the user whose profile folder is `user_profile`.
pub fn desktop_dir(user_profile: &str) -> (d: String)
    ensures
        d@ == desktop_dir_spec(user_profile@),
{
    proof {
        reveal_strlit("Desktop");
    }
    join_path(user_profile, DESKTOP)
}

/// The user's desktop folder, or the error `("", "desktop not exist")` when
/// that folder does not exist; `desktop_exists` tells whether the folder
/// `desktop_dir(user_profile)` exists.
pub fn desktop(user_profile: &str, desktop_exists: bool) -> (r: Result<String, SendError>)
    ensures
        match r {
            Ok(d) => desktop_exists && d@ == desktop_dir_spec(user_profile@),
            Err(e) => !desktop_exists && e@ == (""@, "desktop not exist"@),
        },
{
    if !desktop_exists {
        return Err(SendError::new("", "desktop not exist"));
    }
    Ok(desktop_dir(user_profile))
}

/// Adds two numbers.
pub fn add(left: usize, right: usize) -> (r: usize)
    requires
        left + right <= usize::MAX,
    ensures
        r == left + right,
{
    left + right
}

/// The destinations of the shortcut: the desktop folder and the start menu
/// folder, each set or not.
#[derive(Debug)]
pub struct Send {
    desktop: Option<String>,
    start: Option<String>,
}

/// The view of an optional path.
pub open spec fn opt_view(p: Option<String>) -> Option<Seq<char>> {
    match p {
        Some(s) => Some(s@),
        None => None,
    }
}

impl View for Send {
    type V = (Option<Seq<char>>, Option<Seq<char>>);

    /// The desktop folder and the start menu folder.
    closed spec fn view(&self) -> (Option<Seq<char>>, Option<Seq<char>>) {
        (opt_view(self.desktop), opt_view(self.start))
    }
}

impl Default for Send {
    /// A sender with no destination set.
    fn default() -> (s: Send)
        ensures
            s@ == (None::<Seq<char>>, None::<Seq<char>>),
    {
        Send::new()
    }
}

/// Where the shortcut is made and where it is copied to.
pub struct ShortcutCopies {
    /// The shortcut in the current folder.
    pub from: String,
    /// Its copy on the desktop.
    pub to_desktop: String,
    /// Its copy in the start menu.
    pub to_start: String,
}

impl Send {
    /// A sender with no destination set.
    pub fn new() -> (s: Send)
        ensures
            s@ == (None::<Seq<char>>, None::<Seq<char>>),
    {
        Send { desktop: None, start: None }
    }

    /// The desktop destination, if set.
    pub fn desktop_path(&self) -> (r: Option<&String>)
        ensures
            match r {
                Some(d) => self@.0 == Some(d@),
                None => self@.0 is None,
            },
    {
        self.desktop.as_ref()
    }

    /// The start menu destination, if set.
    pub fn start_path(&self) -> (r: Option<&String>)
        ensures
            match r {
                Some(d) => self@.1 == Some(d@),
                None => self@.1 is None,
            },
    {
        self.start.as_ref()
    }

    /// Sets the desktop destination to the user's desktop folder, or fails as
    /// `desktop` does and leaves the sender unchanged.
    pub fn set_desktop(&mut self, user_profile: &str, desktop_exists: bool) -> (r: Result<
        &mut Self,
        SendError,
    >)
        ensures
            match r {
                Ok(s) => {
                    &&& desktop_exists
                    &&& s@ == (Some(desktop_dir_spec(user_profile@)), old(self)@.1)
                    &&& final(self)@ == final(s)@
                },
                Err(e) => {
                    &&& !desktop_exists
                    &&& e@ == (""@, "desktop not exist"@)
                    &&& final(self)@ == old(self)@
                },
            },
    {
        let d = desktop(user_profile, desktop_exists);
        match d {
            Ok(d) => {
                self.desktop = Some(d);
                Ok(self)
            },
            Err(e) => Err(e),
        }
    }

    /// Sets the start menu destination to `START`.
    pub fn set_start(&mut self) -> (r: &mut Self)
        ensures
            r@ == (old(self)@.0, Some(START@)),
            final(self)@ == final(r)@,
    {
        self.start = Some(START.to_owned());
        self
    }

    /// Where `send` creates the shortcut (in `current_dir`) and where it
    /// copies it; both destinations must be set.
    pub fn send_plan(&self, current_dir: &str) -> (c: ShortcutCopies)
        requires
            self@.0 is Some,
            self@.1 is Some,
        ensures
            c.from@ == join(current_dir@, LNK_NAME@),
            c.to_desktop@ == join(self@.0->0, LNK_NAME@),
            c.to_start@ == join(self@.1->0, LNK_NAME@),
    {
        proof {
            reveal_strlit("ankiserver.lnk");
        }
        let desk = self.desktop.as_ref().unwrap();
        let start = self.start.as_ref().unwrap();
        ShortcutCopies {
            from: join_path(current_dir, LNK_NAME),
            to_desktop: join_path(desk.as_str(), LNK_NAME),
            to_start: join_path(start.as_str(), LNK_NAME),
        }
    }
}

/// The shortcut that `create_shortcut` writes in `current_dir`, and the
/// server executable it points to.
pub struct ShortcutPaths {
    /// The executable the shortcut points to.
    pub target: String,
    /// The shortcut file.
    pub lnk: String,
}

/// The paths that the shortcut creation uses in `current_dir`.
pub fn shortcut_paths(current_dir: &str) -> (p: ShortcutPaths)
    ensures
        p.target@ == join(current_dir@, SERVER_EXE@),
        p.lnk@ == join(current_dir@, LNK_NAME@),
{
    proof {
        reveal_strlit("ankiserver.lnk");
        reveal_strlit("ankiserver.exe");
    }
    ShortcutPaths { target: join_path(current_dir, SERVER_EXE), lnk: join_path(current_dir, LNK_NAME) }
}

} // verus!
