//! Scripts and the launcher's state: the list, its selection and the dialog.

use std::path::PathBuf;
use vstd::prelude::*;
use vstd::string::StringExecFns;

verus! {

/// A filesystem path, carried through the library as it is.
#[verifier::external_type_specification]
#[verifier::external_body]
pub struct ExPathBuf(PathBuf);

/// A single script discovered on disk.
pub struct ScriptEntry {
    pub name: String,
    pub description: String,
    pub category: String,
    /// Absolute path to the script file on disk.
    pub path: PathBuf,
}

/// What a script entry says, as plain text.
pub struct ScriptEntryView {
    pub name: Seq<char>,
    pub description: Seq<char>,
    pub category: Seq<char>,
    pub path: PathBuf,
}

impl View for ScriptEntry {
    type V = ScriptEntryView;

    open spec fn view(&self) -> ScriptEntryView {
        ScriptEntryView {
            name: self.name@,
            description: self.description@,
            category: self.category@,
            path: self.path,
        }
    }
}

/// Top-level application state.
pub struct App {
    pub scripts: Vec<ScriptEntry>,
    /// Selection index into `scripts` (excludes category-header rows).
    pub selected: Option<usize>,
    pub show_run_dialog: bool,
    pub last_message: Option<String>,
    /// Non-fatal warnings accumulated while loading scripts.
    pub load_warnings: Vec<String>,
    /// The directory that was scanned.
    pub scripts_dir: PathBuf,
}

/// A key as the launcher tells keys apart.
pub enum Key {
    Char(char),
    F(u8),
    Up,
    Down,
    Enter,
    Esc,
    Tab,
    BackTab,
    Backspace,
    Other,
}

/// What the event loop does after a key.
#[derive(PartialEq, Eq, Structural)]
pub enum Step {
    /// Keep running.
    Continue,
    /// Leave the launcher.
    Quit,
    /// Launch the selected script (the dialog is already closed).
    Launch,
}

/// The selection after moving down: the next script, wrapping from the
/// last to the first; the first when nothing was selected; unchanged when
/// there are no scripts.
pub open spec fn next_selection(sel: Option<usize>, len: nat) -> Option<usize> {
    if len == 0 {
        sel
    } else {
        match sel {
            Some(i) => if i >= len - 1 {
                Some(0)
            } else {
                Some((i + 1) as usize)
            },
            None => Some(0),
        }
    }
}

/// The selection after moving up: the previous script, wrapping from the
/// first to the last; the first when nothing was selected; unchanged when
/// there are no scripts.
pub open spec fn previous_selection(sel: Option<usize>, len: nat) -> Option<usize> {
    if len == 0 {
        sel
    } else {
        match sel {
            Some(i) => if i == 0 {
                Some((len - 1) as usize)
            } else {
                Some((i - 1) as usize)
            },
            None => Some(0),
        }
    }
}

/// The state `a` with only its selection replaced.
pub open spec fn with_selection(a: App, sel: Option<usize>) -> App {
    App {
        scripts: a.scripts,
        selected: sel,
        show_run_dialog: a.show_run_dialog,
        last_message: a.last_message,
        load_warnings: a.load_warnings,
        scripts_dir: a.scripts_dir,
    }
}

/// The state `a` with its message cleared and its selection replaced.
pub open spec fn moved(a: App, sel: Option<usize>) -> App {
    App {
        scripts: a.scripts,
        selected: sel,
        show_run_dialog: a.show_run_dialog,
        last_message: None,
        load_warnings: a.load_warnings,
        scripts_dir: a.scripts_dir,
    }
}

/// The state `a` with the run dialog shown or hidden.
pub open spec fn with_dialog(a: App, shown: bool) -> App {
    App {
        scripts: a.scripts,
        selected: a.selected,
        show_run_dialog: shown,
        last_message: a.last_message,
        load_warnings: a.load_warnings,
        scripts_dir: a.scripts_dir,
    }
}

/// The script that the selection points at, if any.
pub open spec fn selected_entry(a: App) -> Option<ScriptEntry> {
    match a.selected {
        Some(i) => if i < a.scripts.len() {
            Some(a.scripts[i as int])
        } else {
            None
        },
        None => None,
    }
}

/// How the launcher reacts to a key: the next state and what the event
/// loop does.
///
/// Only presses count. Over the list, `q`, `Q` and F10 quit; Down and `j`
/// move down, Up and `k` move up (both clear the message); Enter and F5
/// open the run dialog. In the dialog, Enter, `y` and `Y` close it and
/// launch the selected script, if there is one; Esc, `n` and `N` close it.
/// Every other key changes nothing.
pub open spec fn key_transition(a: App, key: Key, pressed: bool) -> (App, Step) {
    if !pressed {
        (a, Step::Continue)
    } else if !a.show_run_dialog {
        match key {
            Key::Char('q') | Key::Char('Q') | Key::F(10) => (a, Step::Quit),
            Key::Down | Key::Char('j') => (
                moved(a, next_selection(a.selected, a.scripts@.len())),
                Step::Continue,
            ),
            Key::Up | Key::Char('k') => (
                moved(a, previous_selection(a.selected, a.scripts@.len())),
                Step::Continue,
            ),
            Key::Enter | Key::F(5) => (with_dialog(a, true), Step::Continue),
            _ => (a, Step::Continue),
        }
    } else {
        match key {
            Key::Enter | Key::Char('y') | Key::Char('Y') => (
                with_dialog(a, false),
                if selected_entry(a) is Some {
                    Step::Launch
                } else {
                    Step::Continue
                },
            ),
            Key::Esc | Key::Char('n') | Key::Char('N') => (with_dialog(a, false), Step::Continue),
            _ => (a, Step::Continue),
        }
    }
}

/// The message shown after launching the script in file `file_name`.
pub open spec fn launch_text(file_name: Seq<char>, arg_summary: Seq<char>) -> Seq<char> {
    "Launched: "@ + file_name + arg_summary
}

impl App {
    /// The selection points at a script whenever there is one.
    pub open spec fn wf(&self) -> bool {
        match self.selected {
            Some(i) => i < self.scripts.len(),
            None => self.scripts.len() == 0,
        }
    }

    /// The state for a freshly loaded catalogue: the first script selected
    /// (if any), no dialog and no message.
    pub fn new(scripts: Vec<ScriptEntry>, load_warnings: Vec<String>, scripts_dir: PathBuf) -> (r:
        Self)
        ensures
            r.scripts == scripts,
            r.selected == (if scripts.len() > 0 {
                Some(0usize)
            } else {
                None
            }),
            !r.show_run_dialog,
            r.last_message is None,
            r.load_warnings == load_warnings,
            r.scripts_dir == scripts_dir,
            r.wf(),
    {
        let selected = if scripts.len() > 0 {
            Some(0)
        } else {
            None
        };
        App {
            scripts,
            selected,
            show_run_dialog: false,
            last_message: None,
            load_warnings,
            scripts_dir,
        }
    }

    /// Moves the selection down one script, wrapping around.
    pub fn next(&mut self)
        ensures
            *final(self) == with_selection(
                *old(self),
                next_selection(old(self).selected, old(self).scripts@.len()),
            ),
            old(self).wf() ==> final(self).wf(),
    {
        let len = self.scripts.len();
        if len == 0 {
            return;
        }
        let i = match self.selected {
            Some(i) => if i >= len - 1 {
                0
            } else {
                i + 1
            },
            None => 0,
        };
        self.selected = Some(i);
    }

    /// Moves the selection up one script, wrapping around.
    pub fn previous(&mut self)
        ensures
            *final(self) == with_selection(
                *old(self),
                previous_selection(old(self).selected, old(self).scripts@.len()),
            ),
            old(self).wf() ==> final(self).wf(),
    {
        let len = self.scripts.len();
        if len == 0 {
            return;
        }
        let i = match self.selected {
            Some(i) => if i == 0 {
                len - 1
            } else {
                i - 1
            },
            None => 0,
        };
        self.selected = Some(i);
    }

    /// The selected script, if the selection points at one.
    pub fn selected_script(&self) -> (r: Option<&ScriptEntry>)
        ensures
            r == match selected_entry(*self) {
                Some(e) => Some(&e),
                None => None::<&ScriptEntry>,
            },
    {
        match self.selected {
            Some(i) => if i < self.scripts.len() {
                Some(&self.scripts[i])
            } else {
                None
            },
            None => None,
        }
    }

    /// Shows the run dialog.
    pub fn open_dialog(&mut self)
        ensures
            *final(self) == with_dialog(*old(self), true),
    {
        self.show_run_dialog = true;
    }

    /// Hides the run dialog.
    pub fn close_dialog(&mut self)
        ensures
            *final(self) == with_dialog(*old(self), false),
    {
        self.show_run_dialog = false;
    }

    /// Reacts to a key (`pressed` is false for releases and repeats).
    pub fn handle_key(&mut self, key: Key, pressed: bool) -> (r: Step)
        ensures
            (*final(self), r) == key_transition(*old(self), key, pressed),
            old(self).wf() ==> final(self).wf(),
    {
        if !pressed {
            return Step::Continue;
        }
        if !self.show_run_dialog {
            match key {
                Key::Char('q') | Key::Char('Q') | Key::F(10) => Step::Quit,
                Key::Down | Key::Char('j') => {
                    self.last_message = None;
                    self.next();
                    Step::Continue
                },
                Key::Up | Key::Char('k') => {
                    self.last_message = None;
                    self.previous();
                    Step::Continue
                },
                Key::Enter | Key::F(5) => {
                    self.open_dialog();
                    Step::Continue
                },
                _ => Step::Continue,
            }
        } else {
            match key {
                Key::Enter | Key::Char('y') | Key::Char('Y') => {
                    let launch = self.selected_script().is_some();
                    self.close_dialog();
                    if launch {
                        Step::Launch
                    } else {
                        Step::Continue
                    }
                },
                Key::Esc | Key::Char('n') | Key::Char('N') => {
                    self.close_dialog();
                    Step::Continue
                },
                _ => Step::Continue,
            }
        }
    }

    /// Records that the script in file `file_name` was launched, with the
    /// summary of its arguments.
    pub fn record_launch(&mut self, file_name: &str, arg_summary: &str)
        ensures
            final(self).last_message matches Some(m) && m@ == launch_text(file_name@, arg_summary@),
            final(self).scripts == old(self).scripts,
            final(self).selected == old(self).selected,
            final(self).show_run_dialog == old(self).show_run_dialog,
            final(self).load_warnings == old(self).load_warnings,
            final(self).scripts_dir == old(self).scripts_dir,
    {
        let mut m = String::from_str("Launched: ");
        m.append(file_name);
        m.append(arg_summary);
        self.last_message = Some(m);
    }
}

/// The selection after moving down `k` times.
pub open spec fn next_times(sel: Option<usize>, len: nat, k: nat) -> Option<usize>
    decreases k,
{
    if k == 0 {
        sel
    } else {
        next_selection(next_times(sel, len, (k - 1) as nat), len)
    }
}

/// Moving up undoes moving down, and moving down undoes moving up, on any
/// well-formed selection.
pub proof fn law_up_down_inverse(a: App)
    requires
        a.wf(),
    ensures
        previous_selection(next_selection(a.selected, a.scripts@.len()), a.scripts@.len())
            == a.selected,
        next_selection(previous_selection(a.selected, a.scripts@.len()), a.scripts@.len())
            == a.selected,
{
}

/// Moving down `k` times from script `i` selects script `(i + k) mod len`:
/// the selection runs round the list.
pub proof fn law_next_cycles(i: usize, len: nat, k: nat)
    requires
        i < len,
        len <= usize::MAX,
    ensures
        next_times(Some(i), len, k) == Some(((i + k) % (len as int)) as usize),
    decreases k,
{
    if k == 0 {
        assert((i as int) % (len as int) == i) by (nonlinear_arith)
            requires
                0 <= i < len,
        ;
    } else {
        law_next_cycles(i, len, (k - 1) as nat);
        let j = (i + k - 1) % (len as int);
        assert(0 <= j < len) by (nonlinear_arith)
            requires
                len > 0,
                j == (i + k - 1) % (len as int),
        ;
        if j == len - 1 {
            assert((i + k) % (len as int) == 0) by (nonlinear_arith)
                requires
                    len > 0,
                    j == (i + k - 1) % (len as int),
                    j == len - 1,
            ;
        } else {
            assert((i + k) % (len as int) == j + 1) by (nonlinear_arith)
                requires
                    len > 0,
                    j == (i + k - 1) % (len as int),
                    0 <= j < len - 1,
            ;
        }
    }
}

/// After as many moves down as there are scripts, the selection is back
/// where it started.
pub proof fn law_full_cycle(a: App)
    requires
        a.wf(),
        a.scripts@.len() > 0,
    ensures
        next_times(a.selected, a.scripts@.len(), a.scripts@.len()) == a.selected,
{
    let i = a.selected->0;
    law_next_cycles(i, a.scripts@.len(), a.scripts@.len());
    assert((i + a.scripts@.len()) % (a.scripts@.len() as int) == i) by (nonlinear_arith)
        requires
            0 <= i < a.scripts@.len(),
    ;
}

/// In a well-formed state a script is selected exactly when there is one.
pub proof fn law_selection_present(a: App)
    requires
        a.wf(),
    ensures
        selected_entry(a) is Some <==> a.scripts@.len() > 0,
{
}

/// Every key keeps the state well formed.
pub proof fn law_keys_keep_wf(a: App, key: Key, pressed: bool)
    requires
        a.wf(),
    ensures
        key_transition(a, key, pressed).0.wf(),
{
}

/// The selected script is the one at the selection index, and there is
/// none when nothing is selected or the index is past the list.
pub proof fn law_selected_script_at_selection(a: App)
    ensures
        a.selected is Some && a.selected->0 < a.scripts@.len() ==> selected_entry(a) == Some(
            a.scripts@[a.selected->0 as int],
        ),
        !(a.selected is Some && a.selected->0 < a.scripts@.len()) ==> selected_entry(a) is None,
{
}

/// In the run dialog, Enter, `y` and `Y` close the dialog and launch the
/// selected script, if one is selected; Esc, `n` and `N` close it without
/// launching; nothing but the dialog changes. Released keys do nothing.
pub proof fn law_dialog_keys(a: App, key: Key)
    requires
        a.show_run_dialog,
    ensures
        (key is Enter || key == Key::Char('y') || key == Key::Char('Y')) ==> {
            let (b, st) = key_transition(a, key, true);
            &&& !b.show_run_dialog
            &&& b.scripts == a.scripts
            &&& b.selected == a.selected
            &&& b.last_message == a.last_message
            &&& (st == Step::Launch <==> (a.selected is Some && a.selected->0 < a.scripts@.len()))
            &&& st != Step::Quit
        },
        (key is Esc || key == Key::Char('n') || key == Key::Char('N')) ==> {
            let (b, st) = key_transition(a, key, true);
            &&& !b.show_run_dialog
            &&& b.scripts == a.scripts
            &&& b.selected == a.selected
            &&& b.last_message == a.last_message
            &&& st == Step::Continue
        },
        key_transition(a, key, false) == (a, Step::Continue),
{
}

/// Over the list, `q`, `Q` and F10 quit without change; Enter and F5 open
/// the run dialog; Down and `j` move the selection one script down, Up and
/// `k` one up, wrapping around, and clear the message.
pub proof fn law_list_keys(a: App, key: Key)
    requires
        !a.show_run_dialog,
        a.wf(),
    ensures
        (key == Key::Char('q') || key == Key::Char('Q') || key == Key::F(10)) ==> key_transition(
            a,
            key,
            true,
        ) == (a, Step::Quit),
        (key is Enter || key == Key::F(5)) ==> {
            let (b, st) = key_transition(a, key, true);
            &&& b.show_run_dialog
            &&& b.selected == a.selected
            &&& b.scripts == a.scripts
            &&& st == Step::Continue
        },
        (key is Down || key == Key::Char('j')) && a.scripts@.len() > 0 ==> {
            let (b, st) = key_transition(a, key, true);
            &&& b.selected == Some(
                (if a.selected->0 + 1 == a.scripts@.len() {
                    0
                } else {
                    a.selected->0 + 1
                }) as usize,
            )
            &&& b.last_message is None
            &&& !b.show_run_dialog
            &&& st == Step::Continue
        },
        (key is Up || key == Key::Char('k')) && a.scripts@.len() > 0 ==> {
            let (b, st) = key_transition(a, key, true);
            &&& b.selected == Some(
                (if a.selected->0 == 0 {
                    a.scripts@.len() - 1
                } else {
                    a.selected->0 - 1
                }) as usize,
            )
            &&& b.last_message is None
            &&& !b.show_run_dialog
            &&& st == Step::Continue
        },
{
}

} // verus!
