//! What the screens show, computed as plain text: the script list with its
//! category headers, the argument fields, the dialog boxes and the status
//! line.

use vstd::prelude::*;
use vstd::string::StrSliceExecFns;
use vstd::string::StringExecFns;

use crate::app::{ScriptEntry, ScriptEntryView};
use crate::catalog::entry_views;

verus! {

/// `n` spaces.
pub open spec fn spaces(n: nat) -> Seq<char> {
    Seq::new(n, |i: int| ' ')
}

/// `s` padded with spaces on the right to `width` characters, as the
/// format `{:<width}` does; unchanged when it is already that long.
pub open spec fn padded(s: Seq<char>, width: nat) -> Seq<char> {
    if s.len() < width {
        s + spaces((width - s.len()) as nat)
    } else {
        s
    }
}

/// Pads `s` with spaces on the right to `width` characters.
pub fn pad_right(s: &str, width: usize) -> (r: String)
    ensures
        r@ == padded(s@, width as nat),
{
    let mut r = String::from_str(s);
    let len = s.unicode_len();
    if len >= width {
        return r;
    }
    let mut k: usize = len;
    while k < width
        invariant
            len <= k <= width,
            len == s@.len(),
            r@ == s@ + spaces((k - len) as nat),
        decreases width - k,
    {
        r.append(" ");
        proof {
            reveal_strlit(" ");
        }
        assert(r@ =~= s@ + spaces((k + 1 - len) as nat));
        k = k + 1;
    }
    r
}

/// How many characters of a field's text are shown.
pub const FIELD_WIDTH: usize = 36;

/// The text of an input field: its value followed, when it has the focus,
/// by a cursor block; only the last `FIELD_WIDTH` characters when longer,
/// padded to that width when shorter; with a space on each side.
pub open spec fn field_text(value: Seq<char>, focused: bool) -> Seq<char> {
    let raw = value + if focused {
        "\u{258c}"@
    } else {
        Seq::empty()
    };
    let shown = if raw.len() > FIELD_WIDTH {
        raw.skip(raw.len() - FIELD_WIDTH)
    } else {
        padded(raw, FIELD_WIDTH as nat)
    };
    " "@ + shown + " "@
}

/// The text of an input field (see `field_text`).
pub fn field_display(value: &str, focused: bool) -> (r: String)
    ensures
        r@ == field_text(value@, focused),
{
    let mut raw = String::from_str(value);
    if focused {
        raw.append("\u{258c}");
    } else {
        assert(value@ + Seq::empty() =~= value@);
    }
    let count = raw.as_str().unicode_len();
    let shown = if count > FIELD_WIDTH {
        String::from_str(raw.as_str().substring_char(count - FIELD_WIDTH, count))
    } else {
        pad_right(raw.as_str(), FIELD_WIDTH)
    };
    let mut r = String::from_str(" ");
    r.append(shown.as_str());
    r.append(" ");
    r
}

/// A label padded to the width of the label column.
pub open spec fn label_text(label: Seq<char>) -> Seq<char> {
    padded(label, 20)
}

/// Pads a label to the width of the label column.
pub fn label_display(label: &str) -> (r: String)
    ensures
        r@ == label_text(label@),
{
    pad_right(label, 20)
}

/// The hint shown after an argument with a default value.
pub open spec fn default_hint_text(default: Seq<char>) -> Seq<char> {
    if default.len() == 0 {
        Seq::empty()
    } else {
        "  (default: "@ + default + ")"@
    }
}

/// The hint shown after an argument with a default value.
pub fn default_hint(default: &str) -> (r: String)
    ensures
        r@ == default_hint_text(default@),
{
    if default.is_empty() {
        String::new()
    } else {
        let mut r = String::from_str("  (default: ");
        r.append(default);
        r.append(")");
        r
    }
}

/// The text of the last message in the status bar.
pub open spec fn status_text(msg: Seq<char>) -> Seq<char> {
    "\u{2502}  \u{2713} "@ + msg
}

/// The text of the last message in the status bar.
pub fn status_message(msg: &str) -> (r: String)
    ensures
        r@ == status_text(msg@),
{
    let mut r = String::from_str("\u{2502}  \u{2713} ");
    r.append(msg);
    r
}

/// A rectangle of terminal cells.
#[derive(Clone, Copy, PartialEq, Eq, Structural)]
pub struct Area {
    pub x: u16,
    pub y: u16,
    pub width: u16,
    pub height: u16,
}

/// The area fits on the terminal's coordinate range.
pub open spec fn area_fits(a: Area) -> bool {
    a.x + a.width <= u16::MAX && a.y + a.height <= u16::MAX
}

/// `a - b`, or 0 when `b` is larger.
pub open spec fn minus(a: u16, b: u16) -> u16 {
    if a >= b {
        (a - b) as u16
    } else {
        0
    }
}

/// The smaller of two numbers.
pub open spec fn smaller(a: u16, b: u16) -> u16 {
    if a <= b {
        a
    } else {
        b
    }
}

/// A box of `w` by `h` cells centred in `area`, cut down to fit it.
pub open spec fn centered_box(area: Area, w: u16, h: u16) -> Area {
    Area {
        x: (area.x + minus(area.width, w) / 2) as u16,
        y: (area.y + minus(area.height, h) / 2) as u16,
        width: smaller(w, area.width),
        height: smaller(h, area.height),
    }
}

/// The corner of a box of `w` by `h` cells centred in `area` is on the
/// terminal's coordinate range.
pub open spec fn corner_fits(area: Area, w: u16, h: u16) -> bool {
    area.x + minus(area.width, w) / 2 <= u16::MAX && area.y + minus(area.height, h) / 2
        <= u16::MAX
}

/// A box of `w` by `h` cells centred in `area`, cut down to fit it.
pub fn dialog_area(area: Area, w: u16, h: u16) -> (r: Area)
    requires
        corner_fits(area, w, h),
    ensures
        r == centered_box(area, w, h),
        area_fits(area) ==> area_fits(r),
{
    let x = area.x + area.width.saturating_sub(w) / 2;
    let y = area.y + area.height.saturating_sub(h) / 2;
    Area { x, y, width: if w <= area.width { w } else { area.width }, height: if h <= area.height {
        h
    } else {
        area.height
    } }
}

/// The height of the argument form for `n_args` arguments: a blank row and
/// the category row, three rows per argument (a blank row, its label and
/// its field), a blank row and the key row, a
/// row for the warning about required fields when there are any, and the
/// two borders; at least 10 rows, and at most the area's height less 2.
pub open spec fn form_height(n_args: u16, has_required: bool, area_height: u16) -> u16 {
    let inner = 2 + n_args * 3 + 2 + if has_required {
        1int
    } else {
        0int
    };
    let h = if inner + 2 >= 10 {
        (inner + 2) as u16
    } else {
        10u16
    };
    smaller(h, minus(area_height, 2))
}

/// The rows of the argument form, borders included, can be counted in a
/// `u16`.
pub open spec fn form_rows_fit(n_args: u16, has_required: bool) -> bool {
    2 + n_args * 3 + 2 + (if has_required {
        1int
    } else {
        0int
    }) + 2 <= u16::MAX
}

/// The height of the argument form (see `form_height`).
pub fn arg_form_height(n_args: u16, has_required: bool, area_height: u16) -> (r: u16)
    requires
        form_rows_fit(n_args, has_required),
    ensures
        r == form_height(n_args, has_required, area_height),
{
    let inner_rows: u16 = 2 + n_args * 3 + 2 + if has_required {
        1
    } else {
        0
    };
    let h = if inner_rows + 2 >= 10 {
        inner_rows + 2
    } else {
        10
    };
    let limit = area_height.saturating_sub(2);
    if h <= limit {
        h
    } else {
        limit
    }
}

/// A row of the script list: a category header or a script.
pub struct ListRow {
    pub is_header: bool,
    pub text: String,
}

impl View for ListRow {
    type V = (bool, Seq<char>);

    open spec fn view(&self) -> (bool, Seq<char>) {
        (self.is_header, self.text@)
    }
}

/// The text of the header row of a category.
pub open spec fn header_text(category: Seq<char>) -> Seq<char> {
    " \u{2500}\u{2500} "@ + category + " "@
}

/// The text of the row of a script.
pub open spec fn script_row_text(name: Seq<char>) -> Seq<char> {
    "\u{25ba} "@ + name
}

/// A header goes before script `i` when its category differs from the one
/// before it (for the first script, from the empty category).
pub open spec fn header_before(s: Seq<ScriptEntryView>, i: int) -> bool {
    s[i].category != if i == 0 {
        Seq::<char>::empty()
    } else {
        s[i - 1].category
    }
}

/// The rows of the list for scripts `s`: each script's row, preceded by a
/// header where the category changes.
pub open spec fn list_rows_of(s: Seq<ScriptEntryView>) -> Seq<(bool, Seq<char>)>
    decreases s.len(),
{
    if s.len() == 0 {
        Seq::empty()
    } else {
        let i = s.len() - 1;
        let before = list_rows_of(s.drop_last());
        let with_header = if header_before(s, i) {
            before.push((true, header_text(s[i].category)))
        } else {
            before
        };
        with_header.push((false, script_row_text(s[i].name)))
    }
}

/// The row at which script `i` is shown.
pub open spec fn row_of(s: Seq<ScriptEntryView>, i: int) -> int {
    list_rows_of(s.take(i + 1)).len() - 1
}

/// The plain views of a sequence of rows.
pub open spec fn row_views(v: Seq<ListRow>) -> Seq<(bool, Seq<char>)> {
    Seq::new(v.len(), |i: int| v[i]@)
}

/// The rows of the script list, and for each script the row that shows it.
pub fn list_rows(scripts: &Vec<ScriptEntry>) -> (r: (Vec<ListRow>, Vec<usize>))
    ensures
        row_views(r.0@) == list_rows_of(entry_views(scripts@)),
        r.1.len() == scripts.len(),
        forall|i: int| 0 <= i < scripts.len() ==> #[trigger] r.1@[i] == row_of(entry_views(scripts@), i),
{
    let ghost s = entry_views(scripts@);
    let mut rows: Vec<ListRow> = Vec::new();
    let mut script_to_row: Vec<usize> = Vec::new();
    let mut current = String::new();
    let mut i: usize = 0;
    while i < scripts.len()
        invariant
            i <= scripts.len(),
            s == entry_views(scripts@),
            row_views(rows@) == list_rows_of(s.take(i as int)),
            rows.len() <= 2 * i,
            current@ == if i == 0 {
                Seq::<char>::empty()
            } else {
                s[i - 1].category
            },
            script_to_row.len() == i,
            forall|j: int| 0 <= j < i ==> #[trigger] script_to_row@[j] == row_of(s, j),
        decreases scripts.len() - i,
    {
        let ghost t = s.take(i + 1);
        assert(t.drop_last() =~= s.take(i as int));
        assert(header_before(t, i as int) == header_before(s, i as int));
        if scripts[i].category != current {
            current = scripts[i].category.clone();
            let mut h = String::from_str(" \u{2500}\u{2500} ");
            h.append(scripts[i].category.as_str());
            h.append(" ");
            rows.push(ListRow { is_header: true, text: h });
        }
        script_to_row.push(rows.len());
        let mut line = String::from_str("\u{25ba} ");
        line.append(scripts[i].name.as_str());
        rows.push(ListRow { is_header: false, text: line });
        assert(row_views(rows@) =~= list_rows_of(t));
        assert(t.take(i + 1) =~= t);
        assert forall|j: int| 0 <= j < i + 1 implies #[trigger] script_to_row@[j] == row_of(s, j) by {
            if j == i {
                assert(s.take(j + 1) =~= t);
            }
        }
        i = i + 1;
    }
    assert(s.take(i as int) =~= s);
    (rows, script_to_row)
}

/// The row to highlight: the row of the selected script, if any.
pub fn highlighted_row(selected: Option<usize>, script_to_row: &Vec<usize>) -> (r: Option<usize>)
    ensures
        r == match selected {
            Some(i) => if i < script_to_row.len() {
                Some(script_to_row@[i as int])
            } else {
                None
            },
            None => None,
        },
{
    match selected {
        Some(i) => if i < script_to_row.len() {
            Some(script_to_row[i])
        } else {
            None
        },
        None => None,
    }
}

/// Padding never shortens a text and reaches the requested width.
pub proof fn law_padded_length(s: Seq<char>, width: nat)
    ensures
        padded(s, width).len() == if s.len() < width {
            width
        } else {
            s.len()
        },
        padded(s, width).take(s.len() as int) == s,
{
    assert(padded(s, width).take(s.len() as int) =~= s);
}

/// An input field always takes the same width, and with the focus its
/// cursor stays visible at the end of the text, however long the value.
pub proof fn law_field_width_and_cursor(value: Seq<char>, focused: bool)
    ensures
        field_text(value, focused).len() == FIELD_WIDTH + 2,
        focused && value.len() + 1 >= FIELD_WIDTH ==> field_text(value, focused)[FIELD_WIDTH as int]
            == '\u{258c}',
{
    reveal_strlit(" ");
    reveal_strlit("\u{258c}");
    let raw = value + if focused {
        "\u{258c}"@
    } else {
        Seq::empty()
    };
    if raw.len() <= FIELD_WIDTH {
        law_padded_length(raw, FIELD_WIDTH as nat);
    }
}

/// A dialog box lies inside the area it is centred in.
pub proof fn law_dialog_inside(area: Area, w: u16, h: u16)
    requires
        area_fits(area),
    ensures
        area.x <= centered_box(area, w, h).x,
        centered_box(area, w, h).x + centered_box(area, w, h).width <= area.x + area.width,
        area.y <= centered_box(area, w, h).y,
        centered_box(area, w, h).y + centered_box(area, w, h).height <= area.y + area.height,
        centered_box(area, w, h).width <= w,
        centered_box(area, w, h).height <= h,
{
}

/// The argument form never overflows the area it is drawn in (taller than
/// the area less its 2 border rows).
pub proof fn law_form_height_bounded(n_args: u16, has_required: bool, area_height: u16)
    requires
        form_rows_fit(n_args, has_required),
    ensures
        form_height(n_args, has_required, area_height) <= minus(area_height, 2),
{
}

/// In the script list every script's row shows that script, the rows come
/// in the order of the scripts, and a category header stands right before a
/// script exactly when its category differs from the previous one.
pub proof fn law_list_rows(s: Seq<ScriptEntryView>, i: int)
    requires
        0 <= i < s.len(),
    ensures
        0 <= row_of(s, i) < list_rows_of(s).len(),
        list_rows_of(s)[row_of(s, i)] == (false, script_row_text(s[i].name)),
        i + 1 < s.len() ==> row_of(s, i) < row_of(s, i + 1),
        header_before(s, i) ==> row_of(s, i) >= 1 && list_rows_of(s)[row_of(s, i) - 1] == (
            true,
            header_text(s[i].category),
        ),
        !header_before(s, i) && i > 0 ==> row_of(s, i) >= 1 && list_rows_of(s)[row_of(s, i) - 1]
            == (false, script_row_text(s[i - 1].name)),
{
    let t = s.take(i + 1);
    lemma_rows_prefix(s, i + 1);
    lemma_rows_step(t);
    assert(t.drop_last() =~= s.take(i));
    assert(header_before(t, i) == header_before(s, i));
    if i > 0 {
        let u = s.take(i);
        lemma_rows_step(u);
        assert(u.last() == s[i - 1]);
        if !header_before(s, i) {
            let k = list_rows_of(u).len() - 1;
            assert(list_rows_of(t).len() == list_rows_of(u).len() + 1);
            assert(row_of(s, i) - 1 == k);
            assert(list_rows_of(t)[k] == list_rows_of(u)[k]);
            assert(list_rows_of(s)[k] == list_rows_of(t)[k]);
            assert(list_rows_of(u)[k] == (false, script_row_text(s[i - 1].name)));
        }
    }
    if i + 1 < s.len() {
        let v = s.take(i + 2);
        lemma_rows_step(v);
        assert(v.drop_last() =~= t);
    }
}

/// Adding a script adds its row, after a header when its category changes,
/// and keeps the rows before.
pub proof fn lemma_rows_step(t: Seq<ScriptEntryView>)
    requires
        t.len() > 0,
    ensures
        list_rows_of(t).len() == list_rows_of(t.drop_last()).len() + if header_before(
            t,
            t.len() - 1,
        ) {
            2int
        } else {
            1int
        },
        forall|j: int|
            0 <= j < list_rows_of(t.drop_last()).len() ==> #[trigger] list_rows_of(t)[j]
                == list_rows_of(t.drop_last())[j],
        list_rows_of(t).last() == (false, script_row_text(t.last().name)),
        header_before(t, t.len() - 1) ==> list_rows_of(t)[list_rows_of(t).len() - 2] == (
            true,
            header_text(t.last().category),
        ),
{
}

/// The rows of a prefix of the scripts are a prefix of the rows.
pub proof fn lemma_rows_prefix(s: Seq<ScriptEntryView>, k: int)
    requires
        0 <= k <= s.len(),
    ensures
        list_rows_of(s.take(k)).len() <= list_rows_of(s).len(),
        forall|j: int|
            0 <= j < list_rows_of(s.take(k)).len() ==> #[trigger] list_rows_of(s.take(k))[j]
                == list_rows_of(s)[j],
    decreases s.len() - k,
{
    if k < s.len() {
        lemma_rows_prefix(s, k + 1);
        let t = s.take(k + 1);
        lemma_rows_step(t);
        assert(t.drop_last() =~= s.take(k));
        assert forall|j: int| 0 <= j < list_rows_of(s.take(k)).len() implies #[trigger] list_rows_of(
            s.take(k),
        )[j] == list_rows_of(s)[j] by {
            assert(list_rows_of(t)[j] == list_rows_of(t.drop_last())[j]);
            assert(list_rows_of(s.take(k + 1))[j] == list_rows_of(s)[j]);
        }
    } else {
        assert(s.take(k) =~= s);
    }
}

/// A header row stands right before script `i` exactly when its category
/// differs from that of the script before it (for the first script, when
/// its category is not empty); two neighbouring scripts of one category are
/// on consecutive rows, and a change of category puts one header row
/// between them.
pub proof fn law_header_iff_category_changes(s: Seq<ScriptEntryView>, i: int)
    requires
        0 <= i < s.len(),
    ensures
        i == 0 ==> row_of(s, 0) == if s[0].category.len() == 0 {
            0int
        } else {
            1int
        },
        i > 0 ==> (list_rows_of(s)[row_of(s, i) - 1].0 <==> s[i].category != s[i - 1].category),
        i > 0 && s[i].category == s[i - 1].category ==> row_of(s, i) == row_of(s, i - 1) + 1,
        i > 0 && s[i].category != s[i - 1].category ==> row_of(s, i) == row_of(s, i - 1) + 2
            && list_rows_of(s)[row_of(s, i) - 1] == (true, header_text(s[i].category)),
{
    law_list_rows(s, i);
    let t = s.take(i + 1);
    lemma_rows_step(t);
    assert(t.drop_last() =~= s.take(i));
    assert(header_before(t, i) == header_before(s, i));
    if i == 0 {
        assert(s.take(0) =~= Seq::<ScriptEntryView>::empty());
        assert(list_rows_of(s.take(0)).len() == 0);
        if s[0].category.len() == 0 {
            assert(s[0].category =~= Seq::<char>::empty());
        } else {
            assert(s[0].category != Seq::<char>::empty());
        }
    } else {
        law_list_rows(s, i - 1);
        assert(s.take(i - 1 + 1) =~= s.take(i));
    }
}

} // verus!
