//! Renders module state as a box of text.
//!
//! Each module has a header line with its name, a mark for running or stopped, and
//! how long ago it last wrote, followed by up to four of its entries. Where the
//! modules do not fit into the wanted number of lines, a line says so.

use vstd::prelude::*;

use crate::glass_box::state::{ModuleSnapshot, SnapshotView, StateView};
use crate::text::{decimal, decimal_text, first_chars, take_chars, text};
use crate::views::views;

verus! {

/// Width of the box in characters, without the right border.
pub const BOX_INNER_WIDTH: usize = 52;

/// At most this many entries of a module are shown.
pub const SHOWN_ENTRIES: usize = 4;

/// `n` spaces.
pub open spec fn spaces(n: int) -> Seq<char> {
    Seq::new(
        if n > 0 {
            n as nat
        } else {
            0
        },
        |i: int| ' ',
    )
}

/// `s`, filled up with spaces behind it to the given width.
pub open spec fn pad_right(s: Seq<char>, width: int) -> Seq<char> {
    s + spaces(width - s.len())
}

/// `s`, filled up with spaces before it to the given width.
pub open spec fn pad_left(s: Seq<char>, width: int) -> Seq<char> {
    spaces(width - s.len()) + s
}

/// A line of the box: padded to the inner width, with the right border behind it.
pub open spec fn boxed(s: Seq<char>) -> Seq<char> {
    (pad_right(s, BOX_INNER_WIDTH as int) + " \u{2502}"@).push('\n')
}

pub open spec fn top_border() -> Seq<char> {
    "\u{250c}\u{2500}\u{2500}\u{2500} Glass Box \u{2500}\u{2500}\u{2500}\u{2500}\u{2500}\u{2500}\u{2500}\u{2500}\u{2500}\u{2500}\u{2500}\u{2500}\u{2500}\u{2500}\u{2500}\u{2500}\u{2500}\u{2500}\u{2500}\u{2500}\u{2500}\u{2500}\u{2500}\u{2500}\u{2500}\u{2500}\u{2500}\u{2500}\u{2500}\u{2500}\u{2500}\u{2500}\u{2500}\u{2500}\u{2500}\u{2500}\u{2500}\u{2500}\u{2500}\u{2500}\u{2500}\u{2510}\n"@
}

pub open spec fn bottom_border() -> Seq<char> {
    "\u{2514}\u{2500}\u{2500}\u{2500}\u{2500}\u{2500}\u{2500}\u{2500}\u{2500}\u{2500}\u{2500}\u{2500}\u{2500}\u{2500}\u{2500}\u{2500}\u{2500}\u{2500}\u{2500}\u{2500}\u{2500}\u{2500}\u{2500}\u{2500}\u{2500}\u{2500}\u{2500}\u{2500}\u{2500}\u{2500}\u{2500}\u{2500}\u{2500}\u{2500}\u{2500}\u{2500}\u{2500}\u{2500}\u{2500}\u{2500}\u{2500}\u{2500}\u{2500}\u{2500}\u{2500}\u{2500}\u{2500}\u{2500}\u{2500}\u{2500}\u{2500}\u{2500}\u{2500}\u{2500}\u{2518}\n"@
}

/// A running module is marked by a full circle, a stopped one by an empty circle.
pub open spec fn status_mark(active: bool) -> char {
    if active {
        '\u{25cf}'
    } else {
        '\u{25cb}'
    }
}

/// Time since the module last wrote; none where the clock stands before that.
pub open spec fn ms_since(now_ms: u64, then_ms: u64) -> nat {
    if now_ms >= then_ms {
        (now_ms - then_ms) as nat
    } else {
        0
    }
}

/// The header line of a module.
pub open spec fn header_line(snap: SnapshotView, now_ms: u64) -> Seq<char> {
    boxed(
        ("\u{2502} "@.push(status_mark(snap.is_active)) + " "@) + pad_right(first_chars(snap.name, 20), 20) + " "@
            + pad_left(decimal(ms_since(now_ms, snap.last_update_ms)), 8) + "ms ago"@,
    )
}

/// The line of one entry.
pub open spec fn entry_line(key: Seq<char>, value: Seq<char>) -> Seq<char> {
    boxed("\u{2502}   "@ + pad_right(first_chars(key, 16), 16) + " = "@ + first_chars(value, 24))
}

/// The lines of the first `n` entries.
pub open spec fn entry_lines(state: StateView, n: int) -> Seq<char>
    decreases n,
{
    if n <= 0 {
        Seq::empty()
    } else {
        entry_lines(state, n - 1) + entry_line(state[n - 1].0, state[n - 1].1.value)
    }
}

/// The line that stands for modules that did not fit.
pub open spec fn more_line(count: nat) -> Seq<char> {
    boxed("\u{2502} ... ("@ + decimal(count) + " more modules) ..."@)
}

/// The last line that a module may fill. The bottom border needs one more line, and where
/// more modules follow, the line that says so needs another one.
pub open spec fn line_limit(max_lines: int, last: bool) -> int {
    let kept = if last {
        1int
    } else {
        2int
    };
    if max_lines > kept {
        max_lines - kept
    } else {
        0
    }
}

/// How many entries are shown under a header that was the `lines`-th line.
pub open spec fn entries_shown(count: int, lines: int, limit: int) -> int {
    let room = if limit > lines {
        limit - lines
    } else {
        0
    };
    let wanted = if count < SHOWN_ENTRIES {
        count
    } else {
        SHOWN_ENTRIES as int
    };
    if wanted < room {
        wanted
    } else {
        room
    }
}

/// The lines of the modules from the `i`-th on, when `lines` lines stand before them.
pub open spec fn module_lines(
    snaps: Seq<SnapshotView>,
    i: int,
    lines: int,
    max_lines: int,
    now_ms: u64,
) -> Seq<char>
    decreases snaps.len() - i,
{
    let limit = line_limit(max_lines, i + 1 == snaps.len());
    if i < 0 || i >= snaps.len() {
        Seq::empty()
    } else if lines >= limit {
        more_line(snaps.len())
    } else {
        let n = entries_shown(snaps[i].state.len() as int, lines + 1, limit);
        header_line(snaps[i], now_ms) + entry_lines(snaps[i].state, n) + module_lines(
            snaps,
            i + 1,
            lines + 1 + n,
            max_lines,
            now_ms,
        )
    }
}

/// How many lines the modules from the `i`-th on fill, when `lines` lines stand before
/// them: one for a header, one for each entry, one for modules that did not fit.
pub open spec fn lines_filled(snaps: Seq<SnapshotView>, i: int, lines: int, max_lines: int) -> int
    decreases snaps.len() - i,
{
    let limit = line_limit(max_lines, i + 1 == snaps.len());
    if i < 0 || i >= snaps.len() {
        0
    } else if lines >= limit {
        1
    } else {
        let n = entries_shown(snaps[i].state.len() as int, lines + 1, limit);
        1 + n + lines_filled(snaps, i + 1, lines + 1 + n, max_lines)
    }
}

proof fn lemma_lines_fit(snaps: Seq<SnapshotView>, i: int, lines: int, max_lines: int)
    requires
        0 <= i <= snaps.len(),
        max_lines >= 3,
        i < snaps.len() ==> lines <= max_lines - 2,
        lines <= max_lines - 1,
    ensures
        lines + lines_filled(snaps, i, lines, max_lines) <= max_lines - 1,
    decreases snaps.len() - i,
{
    let limit = line_limit(max_lines, i + 1 == snaps.len());
    if i < snaps.len() && lines < limit {
        let n = entries_shown(snaps[i].state.len() as int, lines + 1, limit);
        lemma_lines_fit(snaps, i + 1, lines + 1 + n, max_lines);
    }
}

/// The whole box.
pub open spec fn rendered(snaps: Seq<SnapshotView>, max_lines: int, now_ms: u64) -> Seq<char> {
    top_border() + module_lines(snaps, 0, 1, max_lines, now_ms) + bottom_border()
}

/// How many line ends a text holds.
pub open spec fn line_ends(s: Seq<char>) -> nat
    decreases s.len(),
{
    if s.len() == 0 {
        0
    } else {
        line_ends(s.drop_last()) + if s.last() == '\n' {
            1nat
        } else {
            0nat
        }
    }
}

/// A text holds no line end.
pub open spec fn one_line(s: Seq<char>) -> bool {
    forall|i: int| 0 <= i < s.len() ==> #[trigger] s[i] != '\n'
}

/// The name of a module, its keys and its values hold no line end.
pub open spec fn one_line_each(snap: SnapshotView) -> bool {
    &&& one_line(snap.name)
    &&& forall|k: int|
        0 <= k < snap.state.len() ==> one_line((#[trigger] snap.state[k]).0) && one_line(snap.state[k].1.value)
}

proof fn lemma_line_ends_add(a: Seq<char>, b: Seq<char>)
    ensures
        line_ends(a + b) == line_ends(a) + line_ends(b),
    decreases b.len(),
{
    if b.len() == 0 {
        assert(a + b =~= a);
    } else {
        assert((a + b).drop_last() =~= a + b.drop_last());
        lemma_line_ends_add(a, b.drop_last());
    }
}

proof fn lemma_one_line(s: Seq<char>)
    requires
        one_line(s),
    ensures
        line_ends(s) == 0,
    decreases s.len(),
{
    if s.len() > 0 {
        assert forall|i: int| 0 <= i < s.drop_last().len() implies #[trigger] s.drop_last()[i] != '\n' by {
            assert(s.drop_last()[i] == s[i]);
        }
        lemma_one_line(s.drop_last());
        assert(s[s.len() - 1] != '\n');
    }
}

proof fn lemma_one_line_add(a: Seq<char>, b: Seq<char>)
    requires
        one_line(a),
        one_line(b),
    ensures
        one_line(a + b),
{
    assert forall|i: int| 0 <= i < (a + b).len() implies #[trigger] (a + b)[i] != '\n' by {
        if i < a.len() {
            assert((a + b)[i] == a[i]);
        } else {
            assert((a + b)[i] == b[i - a.len()]);
        }
    }
}

proof fn lemma_decimal_one_line(n: nat)
    ensures
        one_line(decimal(n)),
    decreases n,
{
    if n >= 10 {
        lemma_decimal_one_line(n / 10);
    }
}

/// A line of the box ends one line.
proof fn lemma_boxed(s: Seq<char>)
    requires
        one_line(s),
    ensures
        line_ends(boxed(s)) == 1,
{
    reveal_strlit(" \u{2502}");
    let line = pad_right(s, BOX_INNER_WIDTH as int) + " \u{2502}"@;
    lemma_one_line_add(s, spaces(BOX_INNER_WIDTH - s.len()));
    lemma_one_line_add(pad_right(s, BOX_INNER_WIDTH as int), " \u{2502}"@);
    lemma_one_line(line);
    assert(line.push('\n').drop_last() =~= line);
}

proof fn lemma_header_line(snap: SnapshotView, now_ms: u64)
    requires
        one_line(snap.name),
    ensures
        line_ends(header_line(snap, now_ms)) == 1,
{
    reveal_strlit("\u{2502} ");
    reveal_strlit(" ");
    reveal_strlit("ms ago");
    let mark = "\u{2502} "@.push(status_mark(snap.is_active));
    let name = first_chars(snap.name, 20);
    let since = decimal(ms_since(now_ms, snap.last_update_ms));
    assert(one_line(name));
    lemma_decimal_one_line(ms_since(now_ms, snap.last_update_ms));
    lemma_one_line_add(mark, " "@);
    lemma_one_line_add(name, spaces(20 - name.len()));
    lemma_one_line_add(mark + " "@, pad_right(name, 20));
    lemma_one_line_add(mark + " "@ + pad_right(name, 20), " "@);
    lemma_one_line_add(spaces(8 - since.len()), since);
    lemma_one_line_add(mark + " "@ + pad_right(name, 20) + " "@, pad_left(since, 8));
    lemma_one_line_add(mark + " "@ + pad_right(name, 20) + " "@ + pad_left(since, 8), "ms ago"@);
    lemma_boxed(mark + " "@ + pad_right(name, 20) + " "@ + pad_left(since, 8) + "ms ago"@);
}

proof fn lemma_entry_line(key: Seq<char>, value: Seq<char>)
    requires
        one_line(key),
        one_line(value),
    ensures
        line_ends(entry_line(key, value)) == 1,
{
    reveal_strlit("\u{2502}   ");
    reveal_strlit(" = ");
    let k = first_chars(key, 16);
    let v = first_chars(value, 24);
    assert(one_line(k));
    assert(one_line(v));
    lemma_one_line_add(k, spaces(16 - k.len()));
    lemma_one_line_add("\u{2502}   "@, pad_right(k, 16));
    lemma_one_line_add("\u{2502}   "@ + pad_right(k, 16), " = "@);
    lemma_one_line_add("\u{2502}   "@ + pad_right(k, 16) + " = "@, v);
    lemma_boxed("\u{2502}   "@ + pad_right(k, 16) + " = "@ + v);
}

proof fn lemma_more_line(count: nat)
    ensures
        line_ends(more_line(count)) == 1,
{
    reveal_strlit("\u{2502} ... (");
    reveal_strlit(" more modules) ...");
    lemma_decimal_one_line(count);
    lemma_one_line_add("\u{2502} ... ("@, decimal(count));
    lemma_one_line_add("\u{2502} ... ("@ + decimal(count), " more modules) ..."@);
    lemma_boxed("\u{2502} ... ("@ + decimal(count) + " more modules) ..."@);
}

proof fn lemma_entry_lines(state: StateView, n: int)
    requires
        0 <= n <= state.len(),
        forall|k: int| 0 <= k < state.len() ==> one_line((#[trigger] state[k]).0) && one_line(state[k].1.value),
    ensures
        line_ends(entry_lines(state, n)) == n,
    decreases n,
{
    if n > 0 {
        lemma_entry_lines(state, n - 1);
        assert(one_line(state[n - 1].0));
        lemma_entry_line(state[n - 1].0, state[n - 1].1.value);
        lemma_line_ends_add(entry_lines(state, n - 1), entry_line(state[n - 1].0, state[n - 1].1.value));
    }
}

proof fn lemma_module_lines(snaps: Seq<SnapshotView>, i: int, lines: int, max_lines: int, now_ms: u64)
    requires
        0 <= i,
        forall|k: int| 0 <= k < snaps.len() ==> one_line_each(#[trigger] snaps[k]),
    ensures
        line_ends(module_lines(snaps, i, lines, max_lines, now_ms)) == lines_filled(snaps, i, lines, max_lines),
    decreases snaps.len() - i,
{
    let limit = line_limit(max_lines, i + 1 == snaps.len());
    if i < snaps.len() {
        if lines >= limit {
            lemma_more_line(snaps.len());
        } else {
            let snap = snaps[i];
            let n = entries_shown(snap.state.len() as int, lines + 1, limit);
            let rest = module_lines(snaps, i + 1, lines + 1 + n, max_lines, now_ms);
            assert(one_line_each(snap));
            lemma_header_line(snap, now_ms);
            lemma_entry_lines(snap.state, n);
            lemma_module_lines(snaps, i + 1, lines + 1 + n, max_lines, now_ms);
            lemma_line_ends_add(header_line(snap, now_ms), entry_lines(snap.state, n));
            lemma_line_ends_add(header_line(snap, now_ms) + entry_lines(snap.state, n), rest);
        }
    }
}

/// A text that holds one line end, as its last character, ends one line.
proof fn lemma_border(s: Seq<char>)
    requires
        s.len() > 0,
        s.last() == '\n',
        one_line(s.drop_last()),
    ensures
        line_ends(s) == 1,
{
    lemma_one_line(s.drop_last());
}

/// With its two borders the box has at most the wanted number of lines. Three is the
/// least that can be wanted. The lines are counted by their ends, so what is shown has to
/// hold none itself.
pub proof fn law_box_fits(snaps: Seq<SnapshotView>, max_lines: int, now_ms: u64)
    requires
        max_lines >= 3,
        forall|k: int| 0 <= k < snaps.len() ==> one_line_each(#[trigger] snaps[k]),
    ensures
        line_ends(rendered(snaps, max_lines, now_ms)) == 2 + lines_filled(snaps, 0, 1, max_lines),
        line_ends(rendered(snaps, max_lines, now_ms)) <= max_lines,
{
    reveal_strlit("\u{250c}\u{2500}\u{2500}\u{2500} Glass Box \u{2500}\u{2500}\u{2500}\u{2500}\u{2500}\u{2500}\u{2500}\u{2500}\u{2500}\u{2500}\u{2500}\u{2500}\u{2500}\u{2500}\u{2500}\u{2500}\u{2500}\u{2500}\u{2500}\u{2500}\u{2500}\u{2500}\u{2500}\u{2500}\u{2500}\u{2500}\u{2500}\u{2500}\u{2500}\u{2500}\u{2500}\u{2500}\u{2500}\u{2500}\u{2500}\u{2500}\u{2500}\u{2500}\u{2500}\u{2500}\u{2500}\u{2510}\n");
    reveal_strlit("\u{2514}\u{2500}\u{2500}\u{2500}\u{2500}\u{2500}\u{2500}\u{2500}\u{2500}\u{2500}\u{2500}\u{2500}\u{2500}\u{2500}\u{2500}\u{2500}\u{2500}\u{2500}\u{2500}\u{2500}\u{2500}\u{2500}\u{2500}\u{2500}\u{2500}\u{2500}\u{2500}\u{2500}\u{2500}\u{2500}\u{2500}\u{2500}\u{2500}\u{2500}\u{2500}\u{2500}\u{2500}\u{2500}\u{2500}\u{2500}\u{2500}\u{2500}\u{2500}\u{2500}\u{2500}\u{2500}\u{2500}\u{2500}\u{2500}\u{2500}\u{2500}\u{2500}\u{2500}\u{2500}\u{2518}\n");
    lemma_border(top_border());
    lemma_border(bottom_border());
    lemma_module_lines(snaps, 0, 1, max_lines, now_ms);
    lemma_lines_fit(snaps, 0, 1, max_lines);
    let middle = module_lines(snaps, 0, 1, max_lines, now_ms);
    lemma_line_ends_add(top_border(), middle);
    lemma_line_ends_add(top_border() + middle, bottom_border());
}

/// Append `n` spaces.
fn push_spaces(out: &mut String, n: usize)
    ensures
        final(out)@ == old(out)@ + spaces(n as int),
{
    let mut i: usize = 0;
    assert(out@ =~= old(out)@ + spaces(0));
    while i < n
        invariant
            i <= n,
            out@ == old(out)@ + spaces(i as int),
        decreases n - i,
    {
        out.push(' ');
        i += 1;
        assert(spaces(i as int) =~= spaces(i - 1).push(' '));
        assert(out@ =~= old(out)@ + spaces(i as int));
    }
}

/// `s`, filled up with spaces behind it to the given width.
pub fn padded_right(s: &str, width: usize) -> (r: String)
    ensures
        r@ == pad_right(s@, width as int),
{
    let mut out = text(s);
    let count = crate::text::chars_of(s).len();
    if width > count {
        push_spaces(&mut out, width - count);
    } else {
        assert(out@ =~= out@ + spaces(width - s@.len()));
    }
    out
}

/// A number, filled up with spaces before it to the given width.
fn padded_number(n: u64, width: usize) -> (r: String)
    ensures
        r@ == pad_left(decimal(n as nat), width as int),
{
    let digits = decimal_text(n);
    let count = crate::text::chars_of(digits.as_str()).len();
    let mut out = String::new();
    if width > count {
        push_spaces(&mut out, width - count);
        assert(out@ =~= spaces(width - count));
    } else {
        assert(out@ =~= spaces(width - digits@.len()));
    }
    out.push_str(digits.as_str());
    out
}

/// Pad a line to the inner width, then add the border and end the line.
fn pad_line(s: &str) -> (r: String)
    ensures
        r@ == boxed(s@),
{
    let mut out = padded_right(s, BOX_INNER_WIDTH);
    out.push_str(" \u{2502}");
    out.push('\n');
    out
}

/// The header line of a module.
fn header(snap: &ModuleSnapshot, now_ms: u64) -> (r: String)
    ensures
        r@ == header_line(snap@, now_ms),
{
    let mut out = text("\u{2502} ");
    out.push(if snap.is_active { '\u{25cf}' } else { '\u{25cb}' });
    out.push_str(" ");
    out.push_str(padded_right(take_chars(snap.name.as_str(), 20).as_str(), 20).as_str());
    out.push_str(" ");
    out.push_str(padded_number(now_ms.saturating_sub(snap.last_update_ms), 8).as_str());
    out.push_str("ms ago");
    pad_line(out.as_str())
}

/// Render the modules as a box of text, of at most `max_lines` lines where that is three or
/// more.
pub fn render_to_string(snapshots: &[ModuleSnapshot], max_lines: usize, now_ms: u64) -> (r: String)
    ensures
        r@ == rendered(views(snapshots@), max_lines as int, now_ms),
{
    let mut output = text("\u{250c}\u{2500}\u{2500}\u{2500} Glass Box \u{2500}\u{2500}\u{2500}\u{2500}\u{2500}\u{2500}\u{2500}\u{2500}\u{2500}\u{2500}\u{2500}\u{2500}\u{2500}\u{2500}\u{2500}\u{2500}\u{2500}\u{2500}\u{2500}\u{2500}\u{2500}\u{2500}\u{2500}\u{2500}\u{2500}\u{2500}\u{2500}\u{2500}\u{2500}\u{2500}\u{2500}\u{2500}\u{2500}\u{2500}\u{2500}\u{2500}\u{2500}\u{2500}\u{2500}\u{2500}\u{2500}\u{2510}\n");
    let mut lines: usize = 1;
    let mut i: usize = 0;
    let ghost snaps = views(snapshots@);
    let ghost all = module_lines(snaps, 0, 1, max_lines as int, now_ms);
    let mut full = false;
    assert(output@ + all =~= top_border() + all);
    while i < snapshots.len() && !full
        invariant
            snaps == views(snapshots@),
            i <= snapshots@.len(),
            lines <= max_lines || lines == 1,
            !full ==> output@ + module_lines(snaps, i as int, lines as int, max_lines as int, now_ms) == top_border()
                + all,
            full ==> output@ == top_border() + all,
        decreases 2 * (snapshots@.len() - i) + (if full { 0int } else { 1int }),
    {
        let ghost before = output@;
        let last = i + 1 == snapshots.len();
        let limit = max_lines.saturating_sub(if last { 1 } else { 2 });
        if lines >= limit {
            let mut more = text("\u{2502} ... (");
            more.push_str(decimal_text(snapshots.len() as u64).as_str());
            more.push_str(" more modules) ...");
            output.push_str(pad_line(more.as_str()).as_str());
            full = true;
        } else {
            let snap = &snapshots[i];
            output.push_str(header(snap, now_ms).as_str());
            lines += 1;
            let ghost start = lines as int;
            let ghost count = snap@.state.len() as int;
            let ghost n = entries_shown(count, start, limit as int);
            let mut k: usize = 0;
            let ghost head = output@;
            assert(head + entry_lines(snap@.state, 0) =~= head);
            while k < snap.state.len() && k < SHOWN_ENTRIES && lines < limit
                invariant
                    start <= limit,
                    count == snap.state@.len(),
                    snap@.state == snap.state@,
                    n == entries_shown(count, start, limit as int),
                    k <= n,
                    lines == start + k,
                    output@ == head + entry_lines(snap@.state, k as int),
                decreases SHOWN_ENTRIES - k,
            {
                let mut entry = text("\u{2502}   ");
                entry.push_str(padded_right(take_chars(snap.state.key_at(k).as_str(), 16).as_str(), 16).as_str());
                entry.push_str(" = ");
                entry.push_str(take_chars(snap.state.value_at(k).value.as_str(), 24).as_str());
                output.push_str(pad_line(entry.as_str()).as_str());
                k += 1;
                lines += 1;
                assert(output@ =~= head + entry_lines(snap@.state, k as int));
            }
            i += 1;
            assert(k == n);
            assert(output@ + module_lines(snaps, i as int, lines as int, max_lines as int, now_ms) =~= before
                + module_lines(snaps, i - 1, start - 1, max_lines as int, now_ms));
        }
    }
    assert(output@ =~= top_border() + all);
    output.push_str("\u{2514}\u{2500}\u{2500}\u{2500}\u{2500}\u{2500}\u{2500}\u{2500}\u{2500}\u{2500}\u{2500}\u{2500}\u{2500}\u{2500}\u{2500}\u{2500}\u{2500}\u{2500}\u{2500}\u{2500}\u{2500}\u{2500}\u{2500}\u{2500}\u{2500}\u{2500}\u{2500}\u{2500}\u{2500}\u{2500}\u{2500}\u{2500}\u{2500}\u{2500}\u{2500}\u{2500}\u{2500}\u{2500}\u{2500}\u{2500}\u{2500}\u{2500}\u{2500}\u{2500}\u{2500}\u{2500}\u{2500}\u{2500}\u{2500}\u{2500}\u{2500}\u{2500}\u{2500}\u{2500}\u{2518}\n");
    output
}

} // verus!
