//! The settings of the active device, as the right column of the menu shows them.

use crate::event::DeviceOptionRequest;
use crate::hardware::DeviceOption;
use crate::text;
use crate::ui;
use crate::ui::{Piece, Shown, Tone};
use vstd::prelude::*;

verus! {

/// How wide a text is on a terminal.
pub uninterp spec fn shown_width(t: Seq<char>) -> nat;

/// The width of `ratatui::text::Line::from` of a text, by `Line::width`: a number
/// that depends on the text alone, and is zero for no text. How characters add up
/// to it is not stated.
#[verifier::external_body]
fn text_width(t: &String) -> (w: usize)
    ensures
        w == shown_width(t@),
        t@.len() == 0 ==> w == 0,
{
    ratatui::text::Line::from(t.as_str()).width()
}

/// What became of the last change of a setting.
pub enum DeviceOptionUpdate {
    Idle,
    Pending { request: DeviceOptionRequest, quit_requested: bool },
    Failed { id: String },
}

/// The heading of the pane while there is nothing to set.
pub fn heading() -> (t: &'static str)
    ensures
        t@ == "Settings will live here."@,
{
    "Settings will live here."
}

/// What the pane admits below it.
pub fn todo() -> (t: [&'static str; 2])
    ensures
        t@ == seq!["TODO: settings go here", "left blank on purpose, not by accident"],
{
    let t = ["TODO: settings go here", "left blank on purpose, not by accident"];
    assert(t@ == seq!["TODO: settings go here", "left blank on purpose, not by accident"]);
    t
}

/// Which option is at the top, so that the selected one stays in view.
pub open spec fn first_shown(cursor: int, total: int, visible: int) -> int {
    if visible == 0 || total <= visible {
        0
    } else {
        let wanted = if cursor < visible - 1 {
            0
        } else {
            cursor - (visible - 1)
        };
        if wanted > total - visible {
            total - visible
        } else {
            wanted
        }
    }
}

/// Which option is at the top.
pub fn scroll_offset(cursor: usize, total: usize, visible: usize) -> (r: usize)
    ensures
        r == first_shown(cursor as int, total as int, visible as int),
{
    if visible == 0 || total <= visible {
        return 0;
    }
    let wanted: usize = if cursor < visible - 1 {
        0
    } else {
        cursor - (visible - 1)
    };
    if wanted > total - visible {
        total - visible
    } else {
        wanted
    }
}

/// The selected option is always in view, and the view never runs past the last.
pub proof fn law_the_selected_option_stays_in_view(cursor: int, total: int, visible: int)
    requires
        0 <= cursor < total,
        0 < visible,
    ensures
        first_shown(cursor, total, visible) <= cursor < first_shown(cursor, total, visible)
            + visible,
        total <= visible || first_shown(cursor, total, visible) + visible <= total,
{
}

/// A text cut off before the first character that makes it too wide, looking from
/// character `k` on.
pub open spec fn fitted_from(t: Seq<char>, width: nat, k: int) -> Seq<char>
    decreases t.len() - k,
{
    if k >= t.len() {
        t
    } else if shown_width(t.take(k + 1)) > width {
        t.take(k)
    } else {
        fitted_from(t, width, k + 1)
    }
}

/// A text cut to a width.
pub open spec fn fitted(t: Seq<char>, width: nat) -> Seq<char> {
    fitted_from(t, width, 0)
}

/// Cuts a text to a width.
pub fn fit_text(t: &[char], width: usize) -> (out: Vec<char>)
    ensures
        out@ == fitted(t@, width as nat),
        shown_width(out@) <= width,
{
    let mut out: Vec<char> = Vec::new();
    let nothing = text::from_chars(out.as_slice());
    let none: usize = text_width(&nothing);
    let mut k: usize = 0;
    while k < t.len()
        invariant
            k <= t@.len(),
            out@ == t@.take(k as int),
            shown_width(out@) <= width,
            fitted_from(t@, width as nat, 0) == fitted_from(t@, width as nat, k as int),
        decreases t@.len() - k,
    {
        let ghost before = out@;
        out.push(t[k]);
        assert(out@ == t@.take(k + 1));
        let so_far = text::from_chars(out.as_slice());
        if text_width(&so_far) > width {
            out.pop();
            assert(out@ == before);
            return out;
        }
        k += 1;
    }
    assert(t@.take(k as int) == t@);
    out
}

/// So many spaces.
pub open spec fn spaces(n: nat) -> Seq<char> {
    Seq::new(n, |i: int| ' ')
}

/// A text cut to a width and filled up with spaces.
pub open spec fn celled(t: Seq<char>, width: nat) -> Seq<char> {
    let cut = fitted(t, width);
    cut + spaces(
        if shown_width(cut) < width {
            (width - shown_width(cut)) as nat
        } else {
            0
        },
    )
}

/// Cuts a text to a width and fills it up with spaces.
pub fn fit_cell(t: &[char], width: usize) -> (out: Vec<char>)
    ensures
        out@ == celled(t@, width as nat),
{
    let mut out = fit_text(t, width);
    let ghost cut = out@;
    let so_far = text::from_chars(out.as_slice());
    let own: usize = text_width(&so_far);
    let missing: usize = if own < width {
        width - own
    } else {
        0
    };
    let mut i: usize = 0;
    assert(cut + spaces(0) == cut);
    while i < missing
        invariant
            i <= missing,
            out@ == cut + spaces(i as nat),
        decreases missing - i,
    {
        out.push(' ');
        assert(cut + spaces((i + 1) as nat) == (cut + spaces(i as nat)).push(' '));
        i += 1;
    }
    out
}

/// The rows above the options, as far as there is room.
pub open spec fn header_rows(iw: nat, height: int) -> Seq<Seq<Shown>> {
    let heading = seq![(fitted("  Device options"@, iw), Tone::ValueHi, true)];
    if height <= 1 {
        Seq::empty()
    } else if height == 2 {
        seq![heading]
    } else if height == 3 {
        seq![heading, Seq::empty()]
    } else {
        seq![Seq::empty(), heading, Seq::empty()]
    }
}

/// The rows above the options.
pub fn option_header(iw: usize, height: usize) -> (rows: Vec<Vec<Piece>>)
    ensures
        ui::rows_shown(rows@) == header_rows(iw as nat, height as int),
        rows@.len() <= height,
        rows@.len() == header_rows(iw as nat, height as int).len(),
{
    let mut rows: Vec<Vec<Piece>> = Vec::new();
    if height <= 1 {
        assert(ui::rows_shown(rows@) == header_rows(iw as nat, height as int));
        return rows;
    }
    if height > 3 {
        rows.push(Vec::new());
    }
    let title = text::to_chars("  Device options");
    let cut = fit_text(title.as_slice(), iw);
    rows.push(ui::single(cut.as_slice(), Tone::ValueHi, true));
    if height > 2 {
        rows.push(Vec::new());
    }
    assert(ui::rows_shown(rows@) =~~= header_rows(iw as nat, height as int));
    rows
}

/// What is shown of a setting's choice: the accepted one, with what is being tried
/// behind it.
pub open spec fn choice_text(option: DeviceOption, update: DeviceOptionUpdate) -> Seq<char> {
    match update {
        DeviceOptionUpdate::Pending { request, .. } if request.id@ == option.id@ =>
            option.selected_choice@ + " -> "@ + request.choice@ + "..."@,
        DeviceOptionUpdate::Failed { id } if id@ == option.id@ => option.selected_choice@
            + " (failed)"@,
        _ => option.selected_choice@,
    }
}

/// How wide the label of a row may be.
pub open spec fn label_width(iw: int) -> int {
    let content = iw - 7;
    if content / 2 < 18 {
        content / 2
    } else {
        18
    }
}

/// The row of a setting.
pub open spec fn option_row(
    option: DeviceOption,
    active: bool,
    update: DeviceOptionUpdate,
    iw: nat,
) -> Seq<Shown> {
    let marker = if active {
        "\u{25b8} "@
    } else {
        "  "@
    };
    if iw < 7 {
        seq![(fitted(marker, iw), Tone::BorderAccent, false)]
    } else {
        seq![
            (marker, Tone::BorderAccent, false),
            (celled(option.label@, label_width(iw as int) as nat), Tone::Label, false),
            (" "@, Tone::Plain, false),
            (
                "\u{25c0} "@ + fitted(
                    choice_text(option, update),
                    (iw - 7 - label_width(iw as int)) as nat,
                ) + " \u{25b6}"@,
                if active {
                    Tone::ValueHi
                } else {
                    Tone::Value
                },
                active,
            ),
        ]
    }
}

fn same_text(a: &String, b: &String) -> (r: bool)
    ensures
        r == (a@ == b@),
{
    let x = text::to_chars(a.as_str());
    let y = text::to_chars(b.as_str());
    text::same(x.as_slice(), y.as_slice())
}

/// The row of a setting.
pub fn option_line(option: &DeviceOption, active: bool, update: &DeviceOptionUpdate, iw: usize) -> (row:
    Vec<Piece>)
    ensures
        ui::row_shown(row@) == option_row(*option, active, *update, iw as nat),
{
    let marker = if active {
        text::to_chars("\u{25b8} ")
    } else {
        text::to_chars("  ")
    };
    if iw < 7 {
        let cut = fit_text(marker.as_slice(), iw);
        let row = ui::single(cut.as_slice(), Tone::BorderAccent, false);
        assert(ui::row_shown(row@) == option_row(*option, active, *update, iw as nat));
        return row;
    }
    let content: usize = iw - 7;
    let label_room: usize = if content / 2 < 18 {
        content / 2
    } else {
        18
    };
    let choice_room: usize = content - label_room;
    let label_chars = text::to_chars(option.label.as_str());
    let label = fit_cell(label_chars.as_slice(), label_room);
    let mut shown: Vec<char> = text::to_chars(option.selected_choice.as_str());
    match update {
        DeviceOptionUpdate::Pending { request, .. } => {
            if same_text(&request.id, &option.id) {
                text::push_str(&mut shown, " -> ");
                text::push_str(&mut shown, request.choice.as_str());
                text::push_str(&mut shown, "...");
            }
        },
        DeviceOptionUpdate::Failed { id } => {
            if same_text(id, &option.id) {
                text::push_str(&mut shown, " (failed)");
            }
        },
        DeviceOptionUpdate::Idle => {},
    }
    assert(shown@ == choice_text(*option, *update));
    let choice = fit_text(shown.as_slice(), choice_room);
    let mut value: Vec<char> = Vec::new();
    text::push_str(&mut value, "\u{25c0} ");
    text::push_all(&mut value, choice.as_slice());
    text::push_str(&mut value, " \u{25b6}");
    let gap = text::to_chars(" ");
    let mut row: Vec<Piece> = Vec::new();
    row.push(Piece::new(marker.as_slice(), Tone::BorderAccent, false));
    row.push(Piece::new(label.as_slice(), Tone::Label, false));
    row.push(Piece::new(gap.as_slice(), Tone::Plain, false));
    row.push(
        Piece::new(
            value.as_slice(),
            if active {
                Tone::ValueHi
            } else {
                Tone::Value
            },
            active,
        ),
    );
    assert(ui::row_shown(row@) == option_row(*option, active, *update, iw as nat));
    row
}

/// A number with its sign, where it is negative.
pub open spec fn signed(n: i64) -> Seq<char> {
    if n < 0 {
        "-"@ + text::decimal((-n) as nat)
    } else {
        text::decimal(n as nat)
    }
}

/// Appends a number with its sign.
fn push_signed(t: &mut Vec<char>, n: i64)
    ensures
        final(t)@ == old(t)@ + signed(n),
{
    let ghost before = t@;
    if n < 0 {
        text::push_str(t, "-");
        let size: u64 = (-(n as i128)) as u64;
        text::push_decimal(t, size);
        assert(t@ == before + ("-"@ + text::decimal((-n) as nat)));
    } else {
        text::push_decimal(t, n as u64);
    }
}

/// The sentence that tells the range of a number that is typed in.
pub fn range_sentence(low: i64, high: i64) -> (out: String)
    ensures
        out@ == "Integer "@ + signed(low) + " to "@ + signed(high),
{
    let mut t: Vec<char> = text::to_chars("Integer ");
    push_signed(&mut t, low);
    text::push_str(&mut t, " to ");
    push_signed(&mut t, high);
    text::from_chars(t.as_slice())
}

/// The sentence for a setting that went away while it was typed in.
pub fn gone_sentence() -> (t: &'static str)
    ensures
        t@ == "Option is no longer available. Esc cancels."@,
{
    "Option is no longer available. Esc cancels."
}

/// A setting that is being typed in: the rows that its range and its error wrap
/// into are handed in.
pub struct Editor {
    pub id: String,
    pub input: String,
    pub range_rows: Vec<String>,
    pub error_rows: Option<Vec<String>>,
    /// How the sentence wraps that says the setting is gone.
    pub gone_rows: Vec<String>,
}

/// The first setting with an id, or the number of settings where there is none.
pub open spec fn option_with(options: Seq<DeviceOption>, id: Seq<char>, k: int) -> int
    decreases options.len() - k,
{
    if k >= options.len() {
        options.len() as int
    } else if options[k].id@ == id {
        k
    } else {
        option_with(options, id, k + 1)
    }
}

/// Rows in one colour.
pub open spec fn plain_rows(rows: Seq<String>, tone: Tone) -> Seq<Seq<Shown>> {
    rows.map_values(|r: String| seq![(r@, tone, false)])
}

/// The rows of the editor: what is set and what is typed, the range where there is
/// one, and the error, which for a setting that is gone is that it is gone.
pub open spec fn editor_rows(options: Seq<DeviceOption>, e: Editor, iw: nat) -> Seq<Seq<Shown>> {
    let at = option_with(options, e.id@, 0);
    let there = at < options.len();
    let o = options[at];
    let head = if there {
        seq![
            seq![(fitted(o.label@ + ": "@ + o.selected_choice@, iw), Tone::Label, false)],
            seq![(fitted("Value: "@ + e.input@ + "_"@, iw), Tone::ValueHi, false)],
        ] + if o.integer_range is Some {
            plain_rows(e.range_rows@, Tone::Label)
        } else {
            Seq::empty()
        }
    } else {
        Seq::empty()
    };
    head + match e.error_rows {
        Some(error) => plain_rows(error@, Tone::StatusWarn),
        None => if there {
            Seq::empty()
        } else {
            plain_rows(e.gone_rows@, Tone::StatusWarn)
        },
    }
}

/// Appends rows in one colour.
fn push_plain(rows: &mut Vec<Vec<Piece>>, more: &Vec<String>, tone: Tone)
    ensures
        ui::rows_shown(final(rows)@) == ui::rows_shown(old(rows)@) + plain_rows(more@, tone),
{
    let ghost before = ui::rows_shown(rows@);
    let mut i: usize = 0;
    assert(before + plain_rows(more@.take(0), tone) == before);
    while i < more.len()
        invariant
            i <= more@.len(),
            ui::rows_shown(rows@) == before + plain_rows(more@.take(i as int), tone),
        decreases more@.len() - i,
    {
        let chars = text::to_chars(more[i].as_str());
        ui::push_row(rows, ui::single(chars.as_slice(), tone, false));
        assert(before + plain_rows(more@.take(i + 1), tone) =~= (before + plain_rows(
            more@.take(i as int),
            tone,
        )).push(seq![(more@[i as int]@, tone, false)]));
        i += 1;
    }
    assert(more@.take(i as int) == more@);
}

/// The rows of the editor.
pub fn editor_lines(options: &Vec<DeviceOption>, e: &Editor, iw: usize) -> (rows: Vec<Vec<Piece>>)
    ensures
        ui::rows_shown(rows@) == editor_rows(options@, *e, iw as nat),
{
    let mut rows: Vec<Vec<Piece>> = Vec::new();
    let mut k: usize = 0;
    while k < options.len() && !same_text(&options[k].id, &e.id)
        invariant
            k <= options@.len(),
            option_with(options@, e.id@, 0) == option_with(options@, e.id@, k as int),
        decreases options@.len() - k,
    {
        k += 1;
    }
    assert(ui::rows_shown(rows@) =~= Seq::<Seq<Shown>>::empty());
    let there = k < options.len();
    if there {
        let o = &options[k];
        let mut t: Vec<char> = text::to_chars(o.label.as_str());
        text::push_str(&mut t, ": ");
        text::push_str(&mut t, o.selected_choice.as_str());
        let cut = fit_text(t.as_slice(), iw);
        ui::push_row(&mut rows, ui::single(cut.as_slice(), Tone::Label, false));
        let mut v: Vec<char> = text::to_chars("Value: ");
        text::push_str(&mut v, e.input.as_str());
        text::push_str(&mut v, "_");
        let cut = fit_text(v.as_slice(), iw);
        ui::push_row(&mut rows, ui::single(cut.as_slice(), Tone::ValueHi, false));
        let ghost two = seq![
            seq![(fitted(o.label@ + ": "@ + o.selected_choice@, iw as nat), Tone::Label, false)],
            seq![(fitted("Value: "@ + e.input@ + "_"@, iw as nat), Tone::ValueHi, false)],
        ];
        assert(ui::rows_shown(rows@) =~= two);
        if o.integer_range.is_some() {
            push_plain(&mut rows, &e.range_rows, Tone::Label);
        } else {
            assert(two + Seq::<Seq<Shown>>::empty() =~= two);
        }
    }
    let ghost head = ui::rows_shown(rows@);
    match &e.error_rows {
        Some(error) => push_plain(&mut rows, error, Tone::StatusWarn),
        None => if !there {
            push_plain(&mut rows, &e.gone_rows, Tone::StatusWarn);
        } else {
            assert(head + Seq::<Seq<Shown>>::empty() =~= head);
        },
    }
    rows
}

/// The pane of a device without settings: the rows that the heading and what
/// stands below it wrap into.
pub struct EmptyPane {
    pub heading_rows: Vec<String>,
    pub comment_rows: Vec<String>,
}

/// Rows in one colour behind a lead.
pub open spec fn led_rows(rows: Seq<String>, lead: Seq<char>, tone: Tone, bold: bool) -> Seq<
    Seq<Shown>,
> {
    rows.map_values(|r: String| seq![(lead + r@, tone, bold)])
}

/// The rows of the empty pane.
pub open spec fn empty_rows(pane: EmptyPane) -> Seq<Seq<Shown>> {
    seq![seq![(""@, Tone::Plain, false)]] + led_rows(
        pane.heading_rows@,
        "  "@,
        Tone::ValueHi,
        true,
    ) + seq![seq![(""@, Tone::Plain, false)]] + led_rows(
        pane.comment_rows@,
        "  // "@,
        Tone::BorderDim,
        false,
    )
}

/// Appends rows in one colour behind a lead.
fn push_led(rows: &mut Vec<Vec<Piece>>, more: &Vec<String>, lead: &str, tone: Tone, bold: bool)
    ensures
        ui::rows_shown(final(rows)@) == ui::rows_shown(old(rows)@) + led_rows(
            more@,
            lead@,
            tone,
            bold,
        ),
{
    let ghost before = ui::rows_shown(rows@);
    let mut i: usize = 0;
    assert(before + led_rows(more@.take(0), lead@, tone, bold) == before);
    while i < more.len()
        invariant
            i <= more@.len(),
            ui::rows_shown(rows@) == before + led_rows(more@.take(i as int), lead@, tone, bold),
        decreases more@.len() - i,
    {
        let mut chars = text::to_chars(lead);
        text::push_str(&mut chars, more[i].as_str());
        ui::push_row(rows, ui::single(chars.as_slice(), tone, bold));
        assert(before + led_rows(more@.take(i + 1), lead@, tone, bold) =~= (before + led_rows(
            more@.take(i as int),
            lead@,
            tone,
            bold,
        )).push(seq![(lead@ + more@[i as int]@, tone, bold)]));
        i += 1;
    }
    assert(more@.take(i as int) == more@);
}

/// The pane of a device without settings.
pub fn empty_lines(pane: &EmptyPane) -> (rows: Vec<Vec<Piece>>)
    ensures
        ui::rows_shown(rows@) == empty_rows(*pane),
{
    let mut rows: Vec<Vec<Piece>> = Vec::new();
    let blank = text::to_chars("");
    let ghost gap = seq![seq![(""@, Tone::Plain, false)]];
    ui::push_row(&mut rows, ui::single(blank.as_slice(), Tone::Plain, false));
    assert(ui::rows_shown(rows@) =~= gap);
    push_led(&mut rows, &pane.heading_rows, "  ", Tone::ValueHi, true);
    let ghost head = ui::rows_shown(rows@);
    ui::push_row(&mut rows, ui::single(blank.as_slice(), Tone::Plain, false));
    assert(ui::rows_shown(rows@) =~= head + gap);
    push_led(&mut rows, &pane.comment_rows, "  // ", Tone::BorderDim, false);
    rows
}

/// The rows of the settings in view.
pub open spec fn list_rows(
    options: Seq<DeviceOption>,
    selected: int,
    update: DeviceOptionUpdate,
    iw: nat,
    height: int,
) -> Seq<Seq<Shown>> {
    let at = if selected < options.len() {
        selected
    } else {
        options.len() - 1
    };
    let head = header_rows(iw, height);
    let visible = height - head.len();
    let first = first_shown(at, options.len() as int, visible);
    let count = if options.len() - first < visible {
        options.len() - first
    } else {
        visible
    };
    head + Seq::new(
        count as nat,
        |i: int| option_row(options[first + i], first + i == at, update, iw),
    )
}

/// What the pane shows of the settings: the editor while one is typed in, a note
/// where the device has none, and otherwise as many as fit around the selected one.
pub fn lines(
    options: &Vec<DeviceOption>,
    editor: &Option<Editor>,
    empty: &EmptyPane,
    selected: usize,
    update: &DeviceOptionUpdate,
    iw: usize,
    height: usize,
) -> (rows: Vec<Vec<Piece>>)
    ensures
        ui::rows_shown(rows@) == match *editor {
            Some(e) => editor_rows(options@, e, iw as nat),
            None => if options@.len() == 0 {
                empty_rows(*empty)
            } else {
                list_rows(options@, selected as int, *update, iw as nat, height as int)
            },
        },
{
    if let Some(e) = editor {
        return editor_lines(options, e, iw);
    }
    if options.len() == 0 {
        return empty_lines(empty);
    }
    let total: usize = options.len();
    let at: usize = if selected < total {
        selected
    } else {
        total - 1
    };
    let mut rows = option_header(iw, height);
    let ghost head = ui::rows_shown(rows@);
    let visible: usize = height - rows.len();
    let first: usize = scroll_offset(at, total, visible);
    proof {
        if visible > 0 {
            law_the_selected_option_stays_in_view(at as int, total as int, visible as int);
        }
    }
    let count: usize = if total - first < visible {
        total - first
    } else {
        visible
    };
    let mut i: usize = 0;
    let ghost wanted = Seq::new(
        count as nat,
        |k: int| option_row(options@[first + k], first + k == at, *update, iw as nat),
    );
    assert(head + wanted.take(0) =~= head);
    while i < count
        invariant
            i <= count,
            first + count <= total == options@.len(),
            wanted == Seq::new(
                count as nat,
                |k: int| option_row(options@[first + k], first + k == at, *update, iw as nat),
            ),
            ui::rows_shown(rows@) == head + wanted.take(i as int),
        decreases count - i,
    {
        let row = option_line(&options[first + i], first + i == at, update, iw);
        ui::push_row(&mut rows, row);
        assert(head + wanted.take(i + 1) =~= (head + wanted.take(i as int)).push(wanted[i as int]));
        i += 1;
    }
    assert(wanted.take(i as int) =~= wanted);
    rows
}

/// How many rows are drawn: the pane is as tall as it is.
pub fn render(rows: usize, width: u16, height: u16) -> (n: usize)
    ensures
        n == if width == 0 || height == 0 {
            0
        } else if rows < height {
            rows as int
        } else {
            height as int
        },
{
    if width == 0 || height == 0 {
        0
    } else if rows < height as usize {
        rows
    } else {
        height as usize
    }
}

/// A text that is cut is the start of the text, as long as it can be: everything up to
/// there fits, and the next character would not.
pub proof fn law_a_text_is_cut_where_it_stops_fitting(t: Seq<char>, width: nat, k: int)
    requires
        0 <= k <= t.len(),
        forall|j: int| 0 < j <= k ==> shown_width(#[trigger] t.take(j)) <= width,
    ensures
        ({
            let cut = fitted_from(t, width, k);
            &&& k <= cut.len() <= t.len()
            &&& cut == t.take(cut.len() as int)
            &&& forall|j: int| 0 < j <= cut.len() ==> shown_width(#[trigger] t.take(j)) <= width
            &&& cut.len() < t.len() ==> shown_width(t.take(cut.len() as int + 1)) > width
        }),
    decreases t.len() - k,
{
    assert(t.take(t.len() as int) == t);
    if k < t.len() && shown_width(t.take(k + 1)) <= width {
        law_a_text_is_cut_where_it_stops_fitting(t, width, k + 1);
    }
}

/// A cell is the cut text and spaces up to its width.
pub proof fn law_a_cell_is_filled_with_spaces(t: Seq<char>, width: nat, i: int)
    requires
        shown_width(fitted(t, width)) <= width,
    ensures
        ({
            let cut = fitted(t, width);
            let cell = celled(t, width);
            &&& cell.len() - cut.len() + shown_width(cut) == width
            &&& cell.take(cut.len() as int) == cut
            &&& cut.len() <= i < cell.len() ==> cell[i] == ' '
        }),
{
}

/// The view scrolls no further than it has to: the first setting is on top as long as
/// the selected one is in view with it, and a selected one further down stands last.
pub proof fn law_the_view_scrolls_no_further_than_it_has_to(cursor: int, total: int, visible: int)
    requires
        0 <= cursor < total,
        0 < visible,
    ensures
        cursor < visible ==> first_shown(cursor, total, visible) == 0,
        visible <= cursor ==> first_shown(cursor, total, visible) + visible == cursor + 1,
{
}

/// A label takes no more than half of the room that is left beside the arrows, and no
/// more than eighteen cells; what it leaves is the choice's.
pub proof fn law_a_label_takes_no_more_than_half(iw: int)
    requires
        7 <= iw,
    ensures
        0 <= label_width(iw) <= 18,
        2 * label_width(iw) <= iw - 7,
        label_width(iw) < 18 ==> iw - 8 <= 2 * label_width(iw),
{
}

/// The heading never takes the last row from the settings, and the list is no taller
/// than the pane.
pub proof fn law_the_heading_leaves_room(iw: nat, height: int)
    requires
        1 <= height,
    ensures
        header_rows(iw, height).len() <= 3,
        header_rows(iw, height).len() < height,
{
}

/// The list holds the selected setting, marked, and marks no other; every row of it is
/// the row of a setting, in their order.
pub proof fn law_the_list_marks_the_selected_setting(
    options: Seq<DeviceOption>,
    selected: int,
    update: DeviceOptionUpdate,
    iw: nat,
    height: int,
    i: int,
)
    requires
        0 <= selected < options.len(),
        1 <= height,
        ({
            let head = header_rows(iw, height).len();
            head <= i < list_rows(options, selected, update, iw, height).len()
        }),
    ensures
        ({
            let head = header_rows(iw, height).len() as int;
            let rows = list_rows(options, selected, update, iw, height);
            let first = first_shown(selected, options.len() as int, height - head);
            &&& rows.len() <= height
            &&& rows[i] == option_row(
                options[first + i - head],
                first + i - head == selected,
                update,
                iw,
            )
            &&& head <= head + selected - first < rows.len()
            &&& rows[head + selected - first] == option_row(options[selected], true, update, iw)
        }),
{
    let head = header_rows(iw, height).len() as int;
    law_the_heading_leaves_room(iw, height);
    law_the_selected_option_stays_in_view(selected, options.len() as int, height - head);
}

/// A change that is under way is shown at the setting it is for, behind the choice that
/// holds, and at no other.
pub proof fn law_a_change_is_shown_at_its_setting(option: DeviceOption, update: DeviceOptionUpdate)
    ensures
        option.selected_choice@ == choice_text(option, update).take(
            option.selected_choice@.len() as int,
        ),
        update is Idle ==> choice_text(option, update) == option.selected_choice@,
        update matches DeviceOptionUpdate::Pending { request, .. } ==> {
            &&& request.id@ != option.id@ ==> choice_text(option, update)
                == option.selected_choice@
            &&& request.id@ == option.id@ ==> choice_text(option, update).len()
                == option.selected_choice@.len() + " -> "@.len() + request.choice@.len()
                + "..."@.len()
        },
        update matches DeviceOptionUpdate::Failed { id } ==> id@ != option.id@ ==> choice_text(
            option,
            update,
        ) == option.selected_choice@,
{
}

} // verus!
