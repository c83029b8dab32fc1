//! The form in which a script's declared arguments are filled in before it
//! is launched.

use vstd::prelude::*;
use vstd::string::StrSliceExecFns;
use vstd::string::StringExecFns;

use crate::app::Key;
use crate::catalog::string_views;

verus! {

/// An argument that a script declares.
pub struct ArgSpec {
    pub name: String,
    pub label: String,
    pub required: bool,
    pub default: String,
}

/// What an argument declaration says, as plain values.
pub struct ArgSpecView {
    pub name: Seq<char>,
    pub label: Seq<char>,
    pub required: bool,
    pub default: Seq<char>,
}

impl View for ArgSpec {
    type V = ArgSpecView;

    open spec fn view(&self) -> ArgSpecView {
        ArgSpecView {
            name: self.name@,
            label: self.label@,
            required: self.required,
            default: self.default@,
        }
    }
}

/// The plain views of a sequence of argument declarations.
pub open spec fn arg_views(v: Seq<ArgSpec>) -> Seq<ArgSpecView> {
    Seq::new(v.len(), |i: int| v[i]@)
}

/// The state of the form: the field with the focus and the text typed in
/// each field.
pub struct ArgForm {
    pub focused_field: usize,
    pub values: Vec<String>,
}

impl View for ArgForm {
    type V = (usize, Seq<Seq<char>>);

    open spec fn view(&self) -> (usize, Seq<Seq<char>>) {
        (self.focused_field, string_views(self.values@))
    }
}

/// What the dialog does after a key in the form.
#[derive(PartialEq, Eq, Structural)]
pub enum FormStep {
    /// Keep the form open.
    Stay,
    /// Launch the script and close the form.
    Submit,
    /// Close the form without launching.
    Cancel,
}

/// Some required argument has no text: its field is empty or missing.
pub open spec fn required_missing(args: Seq<ArgSpecView>, values: Seq<Seq<char>>) -> bool {
    exists|i: int|
        0 <= i < args.len() && #[trigger] args[i].required && (i >= values.len() || values[i].len()
            == 0)
}

/// How the form reacts to a key, given the arguments of the selected
/// script (`None` when no script is selected).
///
/// With no fields nothing happens. Tab and Down move the focus to the next
/// field, BackTab and Up to the previous one, both wrapping around; a
/// character is typed into the focused field and Backspace removes its
/// last character. Enter and F5 submit, unless a required argument is
/// still empty; Esc cancels.
pub open spec fn form_transition(
    f: (usize, Seq<Seq<char>>),
    key: Key,
    args: Option<Seq<ArgSpecView>>,
) -> ((usize, Seq<Seq<char>>), FormStep) {
    let (focus, values) = f;
    let n = values.len();
    if n == 0 {
        (f, FormStep::Stay)
    } else {
        match key {
            Key::Tab | Key::Down => ((((focus + 1) % (n as int)) as usize, values), FormStep::Stay),
            Key::BackTab | Key::Up => (
                (if focus == 0 {
                    (n - 1) as usize
                } else {
                    (focus - 1) as usize
                }, values),
                FormStep::Stay,
            ),
            Key::Char(c) => (
                (focus, if focus < n {
                    values.update(focus as int, values[focus as int].push(c))
                } else {
                    values
                }),
                FormStep::Stay,
            ),
            Key::Backspace => (
                (focus, if focus < n && values[focus as int].len() > 0 {
                    values.update(focus as int, values[focus as int].drop_last())
                } else {
                    values
                }),
                FormStep::Stay,
            ),
            Key::Enter | Key::F(5) => (
                f,
                match args {
                    Some(a) => if required_missing(a, values) {
                        FormStep::Stay
                    } else {
                        FormStep::Submit
                    },
                    None => FormStep::Submit,
                },
            ),
            Key::Esc => (f, FormStep::Cancel),
            _ => (f, FormStep::Stay),
        }
    }
}

/// Appends `c` to `s` with `String::push`.
#[verifier::external_body]
fn push_char(s: &mut String, c: char)
    ensures
        final(s)@ == old(s)@.push(c),
{
    s.push(c);
}

/// Removes the last character of `s`, if any.
fn pop_char(s: &mut String)
    ensures
        final(s)@ == if old(s)@.len() > 0 {
            old(s)@.drop_last()
        } else {
            old(s)@
        },
{
    let n = s.as_str().unicode_len();
    if n > 0 {
        let shorter = String::from_str(s.as_str().substring_char(0, n - 1));
        *s = shorter;
    }
}

/// Whether some required argument is still empty.
pub fn required_unfilled(args: &Vec<ArgSpec>, values: &Vec<String>) -> (r: bool)
    ensures
        r == required_missing(arg_views(args@), string_views(values@)),
{
    let ghost a = arg_views(args@);
    let ghost v = string_views(values@);
    let mut i: usize = 0;
    while i < args.len()
        invariant
            i <= args.len(),
            a == arg_views(args@),
            v == string_views(values@),
            forall|j: int|
                0 <= j < i ==> !(#[trigger] a[j].required && (j >= v.len() || v[j].len() == 0)),
        decreases args.len() - i,
    {
        if args[i].required && (i >= values.len() || values[i].as_str().is_empty()) {
            assert(a[i as int].required);
            return true;
        }
        i = i + 1;
    }
    false
}

impl ArgForm {
    /// Reacts to a key; `args` are the arguments of the selected script.
    pub fn handle_key(&mut self, key: Key, args: Option<&Vec<ArgSpec>>) -> (r: FormStep)
        requires
            (key is Tab || key is Down) && old(self).values.len() > 0 ==> old(self).focused_field
                < usize::MAX,
        ensures
            (final(self)@, r) == form_transition(
                old(self)@,
                key,
                match args {
                    Some(a) => Some(arg_views(a@)),
                    None => None,
                },
            ),
    {
        let n = self.values.len();
        if n == 0 {
            return FormStep::Stay;
        }
        match key {
            Key::Tab | Key::Down => {
                self.focused_field = (self.focused_field + 1) % n;
                FormStep::Stay
            },
            Key::BackTab | Key::Up => {
                self.focused_field = if self.focused_field == 0 {
                    n - 1
                } else {
                    self.focused_field - 1
                };
                FormStep::Stay
            },
            Key::Char(c) => {
                let f = self.focused_field;
                if f < n {
                    let mut v = self.values[f].clone();
                    push_char(&mut v, c);
                    self.values.set(f, v);
                    assert(string_views(self.values@) =~= string_views(old(self).values@).update(
                        f as int,
                        string_views(old(self).values@)[f as int].push(c),
                    ));
                }
                FormStep::Stay
            },
            Key::Backspace => {
                let f = self.focused_field;
                if f < n {
                    let mut v = self.values[f].clone();
                    pop_char(&mut v);
                    self.values.set(f, v);
                    assert(string_views(self.values@) =~= if string_views(
                        old(self).values@,
                    )[f as int].len() > 0 {
                        string_views(old(self).values@).update(
                            f as int,
                            string_views(old(self).values@)[f as int].drop_last(),
                        )
                    } else {
                        string_views(old(self).values@)
                    });
                }
                FormStep::Stay
            },
            Key::Enter | Key::F(5) => {
                let missing = match args {
                    Some(a) => required_unfilled(a, &self.values),
                    None => false,
                };
                if missing {
                    FormStep::Stay
                } else {
                    FormStep::Submit
                }
            },
            Key::Esc => FormStep::Cancel,
            _ => FormStep::Stay,
        }
    }
}

/// `list` joined with `sep` between neighbours.
pub open spec fn join(list: Seq<Seq<char>>, sep: Seq<char>) -> Seq<char>
    decreases list.len(),
{
    if list.len() == 0 {
        Seq::empty()
    } else if list.len() == 1 {
        list[0]
    } else {
        join(list.drop_last(), sep) + sep + list.last()
    }
}

/// `name=value` for each of the first `k` fields whose text is not empty.
pub open spec fn filled_pairs(args: Seq<ArgSpecView>, values: Seq<Seq<char>>, k: nat) -> Seq<
    Seq<char>,
>
    decreases k,
{
    if k == 0 {
        Seq::empty()
    } else {
        let rest = filled_pairs(args, values, (k - 1) as nat);
        let v = values[k - 1];
        if v.len() > 0 {
            rest.push(args[k - 1].name + "="@ + v)
        } else {
            rest
        }
    }
}

/// The summary of the arguments given at launch: ` [a=1, b=2]` for the
/// fields that are filled, pairing each field with the argument at the
/// same place; empty when every field is empty.
pub open spec fn summary_text(args: Seq<ArgSpecView>, values: Seq<Seq<char>>) -> Seq<char> {
    if exists|i: int| 0 <= i < values.len() && #[trigger] values[i].len() > 0 {
        let k = if args.len() <= values.len() {
            args.len()
        } else {
            values.len()
        };
        " ["@ + join(filled_pairs(args, values, k), ", "@) + "]"@
    } else {
        Seq::empty()
    }
}

/// The summary of the arguments given at launch (see `summary_text`).
pub fn arg_summary(args: &Vec<ArgSpec>, values: &Vec<String>) -> (r: String)
    ensures
        r@ == summary_text(arg_views(args@), string_views(values@)),
{
    let ghost a = arg_views(args@);
    let ghost v = string_views(values@);
    let mut any = false;
    let mut i: usize = 0;
    while i < values.len()
        invariant
            i <= values.len(),
            v == string_views(values@),
            any <==> exists|j: int| 0 <= j < i && #[trigger] v[j].len() > 0,
        decreases values.len() - i,
    {
        if !values[i].as_str().is_empty() {
            assert(v[i as int].len() > 0);
            any = true;
        }
        i = i + 1;
    }
    if !any {
        return String::new();
    }
    let k = if args.len() <= values.len() {
        args.len()
    } else {
        values.len()
    };
    let mut body = String::new();
    let mut started = false;
    let mut j: usize = 0;
    while j < k
        invariant
            j <= k,
            k <= args.len(),
            k <= values.len(),
            a == arg_views(args@),
            v == string_views(values@),
            body@ == join(filled_pairs(a, v, j as nat), ", "@),
            started == (filled_pairs(a, v, j as nat).len() > 0),
        decreases k - j,
    {
        if !values[j].as_str().is_empty() {
            let ghost before = filled_pairs(a, v, j as nat);
            if started {
                body.append(", ");
            }
            body.append(args[j].name.as_str());
            body.append("=");
            body.append(values[j].as_str());
            let ghost after = before.push(a[j as int].name + "="@ + v[j as int]);
            assert(after.drop_last() =~= before);
            started = true;
            assert(body@ =~= join(after, ", "@));
        }
        j = j + 1;
    }
    let mut r = String::from_str(" [");
    r.append(body.as_str());
    r.append("]");
    r
}

/// The number of fields never changes, and a focus on a field stays on a
/// field.
pub proof fn law_focus_stays_on_a_field(
    f: (usize, Seq<Seq<char>>),
    key: Key,
    args: Option<Seq<ArgSpecView>>,
)
    requires
        f.0 < f.1.len(),
    ensures
        form_transition(f, key, args).0.1.len() == f.1.len(),
        form_transition(f, key, args).0.0 < f.1.len(),
{
    let n = f.1.len();
    assert(((f.0 + 1) % (n as int)) < n) by (nonlinear_arith)
        requires
            n > 0,
    ;
}

/// Moving the focus back undoes moving it forward.
pub proof fn law_back_undoes_forward(f: (usize, Seq<Seq<char>>), args: Option<Seq<ArgSpecView>>)
    requires
        f.0 < f.1.len() <= usize::MAX,
    ensures
        form_transition(form_transition(f, Key::Tab, args).0, Key::BackTab, args).0 == f,
{
    let n = f.1.len();
    if f.0 + 1 < n {
        assert((f.0 + 1) % (n as int) == f.0 + 1) by (nonlinear_arith)
            requires
                0 <= f.0 + 1 < n,
        ;
    } else {
        assert((f.0 + 1) % (n as int) == 0) by (nonlinear_arith)
            requires
                f.0 + 1 == n,
                n > 0,
        ;
    }
}

/// The form is submitted only when every required argument has a value,
/// and submitting or cancelling leaves the fields as they are.
pub proof fn law_submit_needs_required(
    f: (usize, Seq<Seq<char>>),
    key: Key,
    a: Seq<ArgSpecView>,
)
    ensures
        form_transition(f, key, Some(a)).1 == FormStep::Submit ==> !required_missing(a, f.1),
        form_transition(f, key, Some(a)).1 != FormStep::Stay ==> form_transition(f, key, Some(a)).0
            == f,
{
}

} // verus!
