//! The text of the panels and dialogs: the details of the selected script
//! (or how to add scripts), the run dialog, the argument form and the
//! status bar.

use vstd::prelude::*;
use vstd::string::StringExecFns;

use crate::app::{ScriptEntry, ScriptEntryView};
use crate::arg_form::{arg_views, required_missing, required_unfilled, ArgForm, ArgSpec, ArgSpecView};
use crate::catalog::string_views;
use crate::view::{
    arg_form_height, centered_box, corner_fits, default_hint, default_hint_text, dialog_area,
    field_display, field_text, form_height, form_rows_fit, label_display, label_text, minus,
    status_message, status_text, Area,
};

verus! {

/// How a piece of text is shown.
#[derive(Clone, Copy, PartialEq, Eq, Structural)]
pub enum Tone {
    /// The default style.
    Plain,
    /// Titles and names: bold, in the highlight colour.
    Heading,
    /// Categories, labels and directories.
    Accent,
    /// Ordinary text.
    Bright,
    /// Captions and secondary text.
    Dim,
    /// Warnings and required marks.
    Alert,
    /// Examples of header tags.
    Example,
    /// Confirmations.
    Success,
    /// The input field with the focus.
    InputFocused,
    /// An input field without the focus.
    Input,
}

/// A piece of a line, with its tone.
pub struct Segment {
    pub text: String,
    pub tone: Tone,
}

impl View for Segment {
    type V = (Seq<char>, Tone);

    open spec fn view(&self) -> (Seq<char>, Tone) {
        (self.text@, self.tone)
    }
}

/// The plain views of lines of segments.
pub open spec fn line_views(l: Seq<Vec<Segment>>) -> Seq<Seq<(Seq<char>, Tone)>> {
    Seq::new(l.len(), |i: int| Seq::new(l[i]@.len(), |j: int| l[i]@[j]@))
}

/// A line that is a single piece of text.
pub open spec fn single(text: Seq<char>, tone: Tone) -> Seq<(Seq<char>, Tone)> {
    seq![(text, tone)]
}

/// A caption followed by a value.
pub open spec fn field(caption: Seq<char>, value: Seq<char>, tone: Tone) -> Seq<(Seq<char>, Tone)> {
    seq![(caption, Tone::Dim), (value, tone)]
}

/// The horizontal rule between sections.
pub open spec fn rule_line() -> Seq<(Seq<char>, Tone)> {
    single("  ─────────────────────────────────────────"@, Tone::Dim)
}

/// The lines for the warnings from loading: none when there are none, else
/// a blank line, a heading and one line per warning.
pub open spec fn warning_lines(ws: Seq<Seq<char>>) -> Seq<Seq<(Seq<char>, Tone)>> {
    if ws.len() == 0 {
        Seq::empty()
    } else {
        seq![Seq::empty(), single("  ─── Load warnings ───────────────────────"@, Tone::Dim)] + Seq::new(
            ws.len(),
            |i: int| seq![("  "@, Tone::Plain), (ws[i], Tone::Alert)],
        )
    }
}

/// The line for a declared argument: its label, a mark when required, and
/// its default value.
pub open spec fn arg_line(a: ArgSpecView) -> Seq<(Seq<char>, Tone)> {
    seq![
        ("  "@, Tone::Plain),
        (label_text(a.label), Tone::Accent),
        (if a.required {
            " *"@
        } else {
            "  "@
        }, Tone::Alert),
        (default_hint_text(a.default), Tone::Dim),
    ]
}

/// The lines for the declared arguments: none when there are none, else a
/// blank line, a rule and one line per argument.
pub open spec fn arg_lines(args: Seq<ArgSpecView>) -> Seq<Seq<(Seq<char>, Tone)>> {
    if args.len() == 0 {
        Seq::empty()
    } else {
        seq![Seq::empty(), rule_line()] + Seq::new(args.len(), |i: int| arg_line(args[i]))
    }
}

/// The particulars of a script.
pub open spec fn script_lines(e: ScriptEntryView, file_name: Seq<char>, full_path: Seq<char>) -> Seq<
    Seq<(Seq<char>, Tone)>,
> {
    seq![
        Seq::empty(),
        field("  Name     : "@, e.name, Tone::Heading),
        Seq::empty(),
        field("  Category : "@, e.category, Tone::Accent),
        Seq::empty(),
        field("  File     : "@, file_name, Tone::Bright),
        field("  Path     : "@, full_path, Tone::Dim),
        Seq::empty(),
        rule_line(),
        Seq::empty(),
        seq![("  "@, Tone::Plain), (e.description, Tone::Bright)],
    ]
}

/// How to add scripts, shown when there are none.
pub open spec fn help_lines(dir: Seq<char>) -> Seq<Seq<(Seq<char>, Tone)>> {
    seq![
        Seq::empty(),
        single("  No scripts found."@, Tone::Heading),
        Seq::empty(),
        single("  Place executable scripts in:"@, Tone::Bright),
        seq![("    "@, Tone::Plain), (dir, Tone::Accent)],
        Seq::empty(),
        single("  Each script must contain these header"@, Tone::Dim),
        single("  comment tags (first 40 lines):"@, Tone::Dim),
        Seq::empty(),
        single("    # @name:        My Script"@, Tone::Example),
        single("    # @description: What it does"@, Tone::Example),
        single("    # @category:    Category"@, Tone::Example),
    ]
}

/// The whole panel: for the selected script (in file `file_name` at
/// `full_path`, declaring `args`) its particulars and arguments, or with no
/// script the help for directory `dir`; then the warnings.
pub open spec fn detail_lines_of(
    selected: Option<ScriptEntryView>,
    file_name: Seq<char>,
    full_path: Seq<char>,
    dir: Seq<char>,
    args: Seq<ArgSpecView>,
    warnings: Seq<Seq<char>>,
) -> Seq<Seq<(Seq<char>, Tone)>> {
    match selected {
        Some(e) => script_lines(e, file_name, full_path) + arg_lines(args) + warning_lines(
            warnings,
        ),
        None => help_lines(dir) + warning_lines(warnings),
    }
}

/// A piece of text with its tone.
fn seg(text: &str, tone: Tone) -> (r: Segment)
    ensures
        r@ == (text@, tone),
{
    Segment { text: String::from_str(text), tone }
}

/// Appends the warnings section to `lines` (see `warning_lines`).
fn append_warnings(lines: &mut Vec<Vec<Segment>>, warnings: &Vec<String>)
    ensures
        line_views(final(lines)@) == line_views(old(lines)@) + warning_lines(
            string_views(warnings@),
        ),
{
    let ghost start = line_views(lines@);
    let ghost ws = string_views(warnings@);
    if warnings.len() == 0 {
        assert(line_views(lines@) =~= start + warning_lines(ws));
        return;
    }
    lines.push(Vec::new());
    let mut heading: Vec<Segment> = Vec::new();
    heading.push(seg("  ─── Load warnings ───────────────────────", Tone::Dim));
    lines.push(heading);
    let ghost head: Seq<Seq<(Seq<char>, Tone)>> = seq![Seq::empty(), single("  ─── Load warnings ───────────────────────"@, Tone::Dim)];
    assert(line_views(lines@) =~~= start + head);
    let mut i: usize = 0;
    while i < warnings.len()
        invariant
            i <= warnings.len(),
            ws == string_views(warnings@),
            line_views(lines@) == start + head + Seq::new(
                i as nat,
                |k: int| seq![("  "@, Tone::Plain), (ws[k], Tone::Alert)],
            ),
        decreases warnings.len() - i,
    {
        let mut l: Vec<Segment> = Vec::new();
        l.push(seg("  ", Tone::Plain));
        l.push(Segment { text: warnings[i].clone(), tone: Tone::Alert });
        let ghost lv = Seq::new(l@.len(), |j: int| l@[j]@);
        assert(lv =~= seq![("  "@, Tone::Plain), (ws[i as int], Tone::Alert)]);
        let ghost before = line_views(lines@);
        lines.push(l);
        assert(line_views(lines@) =~= before.push(lv));
        i = i + 1;
        assert(Seq::new(i as nat, |k: int| seq![("  "@, Tone::Plain), (ws[k], Tone::Alert)])
            =~= Seq::new((i - 1) as nat, |k: int| seq![("  "@, Tone::Plain), (ws[k], Tone::Alert)]).push(lv));
        assert(line_views(lines@) =~= start + head + Seq::new(
            i as nat,
            |k: int| seq![("  "@, Tone::Plain), (ws[k], Tone::Alert)],
        ));
    }
    assert(line_views(lines@) =~~= start + warning_lines(ws));
}

/// Appends the arguments section to `lines` (see `arg_lines`).
fn append_args(lines: &mut Vec<Vec<Segment>>, args: &Vec<ArgSpec>)
    ensures
        line_views(final(lines)@) == line_views(old(lines)@) + arg_lines(arg_views(args@)),
{
    let ghost start = line_views(lines@);
    let ghost av = arg_views(args@);
    if args.len() == 0 {
        assert(line_views(lines@) =~= start + arg_lines(av));
        return;
    }
    lines.push(Vec::new());
    let mut rule: Vec<Segment> = Vec::new();
    rule.push(seg("  ─────────────────────────────────────────", Tone::Dim));
    lines.push(rule);
    let ghost head: Seq<Seq<(Seq<char>, Tone)>> = seq![Seq::empty(), rule_line()];
    assert(line_views(lines@) =~~= start + head);
    let mut i: usize = 0;
    while i < args.len()
        invariant
            i <= args.len(),
            av == arg_views(args@),
            line_views(lines@) == start + head + Seq::new(i as nat, |k: int| arg_line(av[k])),
        decreases args.len() - i,
    {
        let a = &args[i];
        let mut l: Vec<Segment> = Vec::new();
        l.push(seg("  ", Tone::Plain));
        l.push(Segment { text: label_display(a.label.as_str()), tone: Tone::Accent });
        l.push(
            if a.required {
                seg(" *", Tone::Alert)
            } else {
                seg("  ", Tone::Alert)
            },
        );
        l.push(Segment { text: default_hint(a.default.as_str()), tone: Tone::Dim });
        let ghost lv = Seq::new(l@.len(), |j: int| l@[j]@);
        assert(lv =~= arg_line(av[i as int]));
        let ghost before = line_views(lines@);
        lines.push(l);
        assert(line_views(lines@) =~= before.push(lv));
        i = i + 1;
        assert(Seq::new(i as nat, |k: int| arg_line(av[k])) =~= Seq::new(
            (i - 1) as nat,
            |k: int| arg_line(av[k]),
        ).push(lv));
        assert(line_views(lines@) =~= start + head + Seq::new(i as nat, |k: int| arg_line(av[k])));
    }
    assert(line_views(lines@) =~~= start + arg_lines(av));
}

/// A line made of a caption and a value.
fn field_line(caption: &str, value: &str, tone: Tone) -> (r: Vec<Segment>)
    ensures
        Seq::new(r@.len(), |j: int| r@[j]@) == field(caption@, value@, tone),
{
    let mut l: Vec<Segment> = Vec::new();
    l.push(seg(caption, Tone::Dim));
    l.push(seg(value, tone));
    assert(Seq::new(l@.len(), |j: int| l@[j]@) =~= field(caption@, value@, tone));
    l
}

/// A line made of one piece of text.
fn single_line(text: &str, tone: Tone) -> (r: Vec<Segment>)
    ensures
        Seq::new(r@.len(), |j: int| r@[j]@) == single(text@, tone),
{
    let mut l: Vec<Segment> = Vec::new();
    l.push(seg(text, tone));
    assert(Seq::new(l@.len(), |j: int| l@[j]@) =~= single(text@, tone));
    l
}

/// The lines of the details panel (see `detail_lines_of`).
pub fn detail_lines(
    selected: Option<&ScriptEntry>,
    file_name: &str,
    full_path: &str,
    dir: &str,
    args: &Vec<ArgSpec>,
    warnings: &Vec<String>,
) -> (r: Vec<Vec<Segment>>)
    ensures
        line_views(r@) == detail_lines_of(
            match selected {
                Some(e) => Some(e@),
                None => None,
            },
            file_name@,
            full_path@,
            dir@,
            arg_views(args@),
            string_views(warnings@),
        ),
{
    let mut lines: Vec<Vec<Segment>> = Vec::new();
    match selected {
        Some(e) => {
            lines.push(Vec::new());
            lines.push(field_line("  Name     : ", e.name.as_str(), Tone::Heading));
            lines.push(Vec::new());
            lines.push(field_line("  Category : ", e.category.as_str(), Tone::Accent));
            lines.push(Vec::new());
            lines.push(field_line("  File     : ", file_name, Tone::Bright));
            lines.push(field_line("  Path     : ", full_path, Tone::Dim));
            lines.push(Vec::new());
            lines.push(single_line("  ─────────────────────────────────────────", Tone::Dim));
            lines.push(Vec::new());
            let mut d: Vec<Segment> = Vec::new();
            d.push(seg("  ", Tone::Plain));
            d.push(seg(e.description.as_str(), Tone::Bright));
            lines.push(d);
            assert(line_views(lines@) =~~= script_lines(e@, file_name@, full_path@));
            append_args(&mut lines, args);
        },
        None => {
            lines.push(Vec::new());
            lines.push(single_line("  No scripts found.", Tone::Heading));
            lines.push(Vec::new());
            lines.push(single_line("  Place executable scripts in:", Tone::Bright));
            let mut d: Vec<Segment> = Vec::new();
            d.push(seg("    ", Tone::Plain));
            d.push(seg(dir, Tone::Accent));
            lines.push(d);
            lines.push(Vec::new());
            lines.push(single_line("  Each script must contain these header", Tone::Dim));
            lines.push(single_line("  comment tags (first 40 lines):", Tone::Dim));
            lines.push(Vec::new());
            lines.push(single_line("    # @name:        My Script", Tone::Example));
            lines.push(single_line("    # @description: What it does", Tone::Example));
            lines.push(single_line("    # @category:    Category", Tone::Example));
            assert(line_views(lines@) =~~= help_lines(dir@));
        },
    }
    append_warnings(&mut lines, warnings);
    lines
}

/// The lines of the run dialog for a script in file `file_name`.
pub open spec fn run_dialog_lines_of(e: ScriptEntryView, file_name: Seq<char>) -> Seq<
    Seq<(Seq<char>, Tone)>,
> {
    seq![
        Seq::empty(),
        field("  Script   : "@, e.name, Tone::Heading),
        Seq::empty(),
        field("  Category : "@, e.category, Tone::Accent),
        Seq::empty(),
        field("  File     : "@, file_name, Tone::Bright),
        Seq::empty(),
        single("  [Y / Enter] Run       [N / Esc] Cancel"@, Tone::Bright),
    ]
}

/// The lines of the run dialog (see `run_dialog_lines_of`).
pub fn run_dialog_lines(e: &ScriptEntry, file_name: &str) -> (r: Vec<Vec<Segment>>)
    ensures
        line_views(r@) == run_dialog_lines_of(e@, file_name@),
{
    let mut lines: Vec<Vec<Segment>> = Vec::new();
    lines.push(Vec::new());
    lines.push(field_line("  Script   : ", e.name.as_str(), Tone::Heading));
    lines.push(Vec::new());
    lines.push(field_line("  Category : ", e.category.as_str(), Tone::Accent));
    lines.push(Vec::new());
    lines.push(field_line("  File     : ", file_name, Tone::Bright));
    lines.push(Vec::new());
    lines.push(single_line("  [Y / Enter] Run       [N / Esc] Cancel", Tone::Bright));
    assert(line_views(lines@) =~~= run_dialog_lines_of(e@, file_name@));
    lines
}

/// The title of the argument form.
pub open spec fn form_title_text(name: Seq<char>) -> Seq<char> {
    " "@ + name + " \u{2014} Arguments "@
}

/// The title of the argument form for a script.
pub fn form_title(name: &str) -> (r: String)
    ensures
        r@ == form_title_text(name@),
{
    let mut t = String::from_str(" ");
    t.append(name);
    t.append(" \u{2014} Arguments ");
    t
}

/// The text typed in field `i`, or nothing when there is no such field.
pub open spec fn value_at(values: Seq<Seq<char>>, i: int) -> Seq<char> {
    if 0 <= i < values.len() {
        values[i]
    } else {
        Seq::empty()
    }
}

/// The rows of argument `i` of the form: a blank row, its label (marked
/// when required, highlighted with the focus) and its input field.
pub open spec fn form_arg_rows(a: ArgSpecView, value: Seq<char>, focused: bool) -> Seq<
    Seq<(Seq<char>, Tone)>,
> {
    seq![
        Seq::empty(),
        seq![
            ("  "@, Tone::Plain),
            (label_text(a.label), if focused {
                Tone::Heading
            } else {
                Tone::Dim
            }),
            if a.required {
                (" *"@, Tone::Alert)
            } else {
                ("  "@, Tone::Plain)
            },
        ],
        seq![
            ("  "@, Tone::Plain),
            (field_text(value, focused), if focused {
                Tone::InputFocused
            } else {
                Tone::Input
            }),
        ],
    ]
}

/// The rows of the first `k` arguments of the form.
pub open spec fn form_fields(
    args: Seq<ArgSpecView>,
    values: Seq<Seq<char>>,
    focus: usize,
    k: nat,
) -> Seq<Seq<(Seq<char>, Tone)>>
    decreases k,
{
    if k == 0 {
        Seq::empty()
    } else {
        form_fields(args, values, focus, (k - 1) as nat) + form_arg_rows(
            args[k - 1],
            value_at(values, k - 1),
            k - 1 == focus,
        )
    }
}

/// The lines of the argument form: the category, the rows of each
/// argument, a warning while a required field is empty, and the keys.
pub open spec fn form_lines_of(
    e: ScriptEntryView,
    args: Seq<ArgSpecView>,
    focus: usize,
    values: Seq<Seq<char>>,
) -> Seq<Seq<(Seq<char>, Tone)>> {
    seq![Seq::empty(), field("  Category : "@, e.category, Tone::Accent)] + form_fields(
        args,
        values,
        focus,
        args.len(),
    ) + seq![Seq::empty()] + (if required_missing(args, values) {
        seq![single("  * Required fields must be filled"@, Tone::Alert)]
    } else {
        Seq::empty()
    }) + seq![single("  [Tab/\u{2193}\u{2191}] Navigate   [Enter] Run   [Esc] Cancel"@, Tone::Bright)]
}

/// The lines of the argument form for a script declaring `args`.
pub fn form_lines(e: &ScriptEntry, args: &Vec<ArgSpec>, form: &ArgForm) -> (r: Vec<Vec<Segment>>)
    ensures
        line_views(r@) == form_lines_of(e@, arg_views(args@), form.focused_field, form@.1),
{
    let ghost av = arg_views(args@);
    let ghost vals = form@.1;
    let mut lines: Vec<Vec<Segment>> = Vec::new();
    lines.push(Vec::new());
    lines.push(field_line("  Category : ", e.category.as_str(), Tone::Accent));
    let ghost head: Seq<Seq<(Seq<char>, Tone)>> = seq![
        Seq::empty(),
        field("  Category : "@, e.category@, Tone::Accent),
    ];
    assert(line_views(lines@) =~~= head);
    let mut i: usize = 0;
    while i < args.len()
        invariant
            i <= args.len(),
            av == arg_views(args@),
            vals == form@.1,
            line_views(lines@) == head + form_fields(av, vals, form.focused_field, i as nat),
        decreases args.len() - i,
    {
        let focused = i == form.focused_field;
        let a = &args[i];
        let ghost before = line_views(lines@);
        lines.push(Vec::new());
        let mut label: Vec<Segment> = Vec::new();
        label.push(seg("  ", Tone::Plain));
        label.push(
            Segment {
                text: label_display(a.label.as_str()),
                tone: if focused {
                    Tone::Heading
                } else {
                    Tone::Dim
                },
            },
        );
        label.push(
            if a.required {
                seg(" *", Tone::Alert)
            } else {
                seg("  ", Tone::Plain)
            },
        );
        lines.push(label);
        let value: &str = if i < form.values.len() {
            form.values[i].as_str()
        } else {
            ""
        };
        proof {
            if i >= form.values.len() {
                reveal_strlit("");
            }
        }
        assert(value@ == value_at(vals, i as int));
        let mut input: Vec<Segment> = Vec::new();
        input.push(seg("  ", Tone::Plain));
        input.push(
            Segment {
                text: field_display(value, focused),
                tone: if focused {
                    Tone::InputFocused
                } else {
                    Tone::Input
                },
            },
        );
        lines.push(input);
        assert(line_views(lines@) =~~= before + form_arg_rows(av[i as int], value@, focused));
        i = i + 1;
    }
    lines.push(Vec::new());
    if required_unfilled(args, &form.values) {
        lines.push(single_line("  * Required fields must be filled", Tone::Alert));
    }
    lines.push(single_line("  [Tab/\u{2193}\u{2191}] Navigate   [Enter] Run   [Esc] Cancel", Tone::Bright));
    assert(line_views(lines@) =~~= form_lines_of(e@, av, form.focused_field, vals));
    lines
}

/// The spans of the status bar: the key hints, then the last message.
pub open spec fn status_spans_of(last_message: Option<Seq<char>>) -> Seq<(Seq<char>, Tone)> {
    let hints = seq![
        ("  "@, Tone::Plain),
        ("\u{2191}\u{2193}"@, Tone::Heading),
        (" Navigate  "@, Tone::Bright),
        ("Enter"@, Tone::Heading),
        (" Run  "@, Tone::Bright),
        ("F10"@, Tone::Heading),
        (" Quit  "@, Tone::Bright),
        ("Q"@, Tone::Heading),
        (" Quit  "@, Tone::Bright),
    ];
    match last_message {
        Some(m) => hints.push((status_text(m), Tone::Success)),
        None => hints,
    }
}

/// The spans of the status bar (see `status_spans_of`).
pub fn status_spans(last_message: &Option<String>) -> (r: Vec<Segment>)
    ensures
        Seq::new(r@.len(), |j: int| r@[j]@) == status_spans_of(
            match last_message {
                Some(m) => Some(m@),
                None => None,
            },
        ),
{
    let mut spans: Vec<Segment> = Vec::new();
    spans.push(seg("  ", Tone::Plain));
    spans.push(seg("\u{2191}\u{2193}", Tone::Heading));
    spans.push(seg(" Navigate  ", Tone::Bright));
    spans.push(seg("Enter", Tone::Heading));
    spans.push(seg(" Run  ", Tone::Bright));
    spans.push(seg("F10", Tone::Heading));
    spans.push(seg(" Quit  ", Tone::Bright));
    spans.push(seg("Q", Tone::Heading));
    spans.push(seg(" Quit  ", Tone::Bright));
    match last_message {
        Some(m) => {
            spans.push(Segment { text: status_message(m.as_str()), tone: Tone::Success });
        },
        None => {},
    }
    assert(Seq::new(spans@.len(), |j: int| spans@[j]@) =~= status_spans_of(
        match last_message {
            Some(m) => Some(m@),
            None => None,
        },
    ));
    spans
}

/// Some argument is required.
pub open spec fn any_required(args: Seq<ArgSpecView>) -> bool {
    exists|i: int| 0 <= i < args.len() && #[trigger] args[i].required
}

/// Whether some argument is required.
pub fn has_required(args: &Vec<ArgSpec>) -> (r: bool)
    ensures
        r == any_required(arg_views(args@)),
{
    let ghost av = arg_views(args@);
    let mut i: usize = 0;
    while i < args.len()
        invariant
            i <= args.len(),
            av == arg_views(args@),
            forall|j: int| 0 <= j < i ==> !(#[trigger] av[j]).required,
        decreases args.len() - i,
    {
        if args[i].required {
            assert(av[i as int].required);
            return true;
        }
        i = i + 1;
    }
    false
}

/// The width of the argument form.
pub const FORM_WIDTH: u16 = 66;

/// The number of arguments as the form's height counts it: the count cut
/// to 16 bits.
pub open spec fn arg_count(args: Seq<ArgSpecView>) -> u16 {
    args.len() as u16
}

/// The box of the argument form for a script declaring `args`: `FORM_WIDTH`
/// columns wide, `form_height` rows high, centred in `area`.
pub open spec fn form_box(area: Area, args: Seq<ArgSpecView>) -> Area {
    centered_box(
        area,
        FORM_WIDTH,
        form_height(arg_count(args), any_required(args), area.height),
    )
}

/// The box of the argument form for a script declaring `args`.
pub fn form_area(area: Area, args: &Vec<ArgSpec>) -> (r: Area)
    requires
        form_rows_fit(arg_count(arg_views(args@)), any_required(arg_views(args@))),
        corner_fits(
            area,
            FORM_WIDTH,
            form_height(
                arg_count(arg_views(args@)),
                any_required(arg_views(args@)),
                area.height,
            ),
        ),
    ensures
        r == form_box(area, arg_views(args@)),
{
    #[verifier::truncate]
    let n = args.len() as u16;
    let h = arg_form_height(n, has_required(args), area.height);
    dialog_area(area, FORM_WIDTH, h)
}

/// The rows of the first `k` arguments are three per argument.
proof fn lemma_form_fields_len(
    args: Seq<ArgSpecView>,
    values: Seq<Seq<char>>,
    focus: usize,
    k: nat,
)
    ensures
        form_fields(args, values, focus, k).len() == 3 * k,
    decreases k,
{
    if k > 0 {
        lemma_form_fields_len(args, values, focus, (k - 1) as nat);
    }
}

/// When the area is tall enough, the argument form's box holds every line
/// the form draws, the key row included, inside its borders.
pub proof fn law_form_box_holds_its_lines(
    area: Area,
    e: ScriptEntryView,
    args: Seq<ArgSpecView>,
    focus: usize,
    values: Seq<Seq<char>>,
)
    requires
        args.len() <= u16::MAX,
        form_rows_fit(arg_count(args), any_required(args)),
        2 + 3 * args.len() + 2 + (if any_required(args) {
            1int
        } else {
            0int
        }) + 2 <= minus(area.height, 2),
    ensures
        form_lines_of(e, args, focus, values).len() + 2 <= form_box(area, args).height,
{
    lemma_form_fields_len(args, values, focus, args.len());
    assert(arg_count(args) == args.len());
    if required_missing(args, values) {
        let i = choose|i: int|
            0 <= i < args.len() && #[trigger] args[i].required && (i >= values.len()
                || values[i].len() == 0);
        assert(args[i].required);
    }
}

} // verus!
