//! What the tool prints: the summary, the item lines, and text diffs.
use owo_colors::OwoColorize;
use vstd::prelude::*;

use crate::diff::{DiffEntry, DiffEntryView, DriftKind};
use crate::path::{render_path, FsPath};
use crate::report::{count_kind, item_kinds, summarizes, Report, ReportItem, Summary};
use crate::scanner::{join_root, join_root_spec, FileType};
use crate::text::{decimal_digits, decimal_string, push_char};

verus! {

/// Colors are used unless turned off by the flag or by a `NO_COLOR`
/// variable in the environment (`no_color_env` tells whether one is set).
pub fn use_color(no_color_flag: bool, no_color_env: bool) -> (r: bool)
    ensures
        r == (!no_color_flag && !no_color_env),
{
    !no_color_flag && !no_color_env
}

/// Text in an ANSI foreground color: the color's code, the text, then the
/// code that restores the default foreground.
pub open spec fn ansi_fg(code: Seq<char>, text: Seq<char>) -> Seq<char> {
    seq!['\u{1b}', '['] + code + seq!['m'] + text + seq!['\u{1b}', '[', '3', '9', 'm']
}

/// Text in green.
///
/// Trusted: owo-colors' `green` wraps the text in `ESC[32m` and `ESC[39m`
/// when it is displayed.
#[verifier::external_body]
fn paint_green(text: &str) -> (r: String)
    ensures
        r@ == ansi_fg(seq!['3', '2'], text@),
{
    text.green().to_string()
}

/// Text in red.
///
/// Trusted: owo-colors' `red` wraps the text in `ESC[31m` and `ESC[39m`
/// when it is displayed.
#[verifier::external_body]
fn paint_red(text: &str) -> (r: String)
    ensures
        r@ == ansi_fg(seq!['3', '1'], text@),
{
    text.red().to_string()
}

/// Text in yellow.
///
/// Trusted: owo-colors' `yellow` wraps the text in `ESC[33m` and `ESC[39m`
/// when it is displayed.
#[verifier::external_body]
fn paint_yellow(text: &str) -> (r: String)
    ensures
        r@ == ansi_fg(seq!['3', '3'], text@),
{
    text.yellow().to_string()
}

/// Text in blue.
///
/// Trusted: owo-colors' `blue` wraps the text in `ESC[34m` and `ESC[39m`
/// when it is displayed.
#[verifier::external_body]
fn paint_blue(text: &str) -> (r: String)
    ensures
        r@ == ansi_fg(seq!['3', '4'], text@),
{
    text.blue().to_string()
}

/// Text in magenta.
///
/// Trusted: owo-colors' `magenta` wraps the text in `ESC[35m` and `ESC[39m`
/// when it is displayed.
#[verifier::external_body]
fn paint_magenta(text: &str) -> (r: String)
    ensures
        r@ == ansi_fg(seq!['3', '5'], text@),
{
    text.magenta().to_string()
}

/// Text in cyan.
///
/// Trusted: owo-colors' `cyan` wraps the text in `ESC[36m` and `ESC[39m`
/// when it is displayed.
#[verifier::external_body]
fn paint_cyan(text: &str) -> (r: String)
    ensures
        r@ == ansi_fg(seq!['3', '6'], text@),
{
    text.cyan().to_string()
}

/// The mark that starts an item line.
pub open spec fn kind_mark(kind: DriftKind) -> char {
    match kind {
        DriftKind::Added => '+',
        DriftKind::Removed => '-',
        DriftKind::ContentChanged => '~',
        DriftKind::MetadataChanged => '!',
        DriftKind::SymlinkTargetChanged => '@',
        DriftKind::TypeChanged => '#',
    }
}

/// The color code of a kind's mark: green, red, yellow, blue, magenta, cyan.
pub open spec fn kind_color(kind: DriftKind) -> Seq<char> {
    match kind {
        DriftKind::Added => seq!['3', '2'],
        DriftKind::Removed => seq!['3', '1'],
        DriftKind::ContentChanged => seq!['3', '3'],
        DriftKind::MetadataChanged => seq!['3', '4'],
        DriftKind::SymlinkTargetChanged => seq!['3', '5'],
        DriftKind::TypeChanged => seq!['3', '6'],
    }
}

/// An item line: the kind's mark (colored when asked), a space, the path.
pub open spec fn item_line(kind: DriftKind, path: Seq<char>, use_color: bool) -> Seq<char> {
    let mark = seq![kind_mark(kind)];
    let prefix = if use_color {
        ansi_fg(kind_color(kind), mark)
    } else {
        mark
    };
    prefix + seq![' '] + path
}

/// The line printed for a report item.
pub fn format_item(item: &ReportItem, use_color: bool) -> (r: String)
    ensures
        r@ == item_line(item.kind, item.path@, use_color),
{
    proof {
        reveal_strlit("+");
        reveal_strlit("-");
        reveal_strlit("~");
        reveal_strlit("!");
        reveal_strlit("@");
        reveal_strlit("#");
    }
    let mut prefix = if use_color {
        match item.kind {
            DriftKind::Added => paint_green("+"),
            DriftKind::Removed => paint_red("-"),
            DriftKind::ContentChanged => paint_yellow("~"),
            DriftKind::MetadataChanged => paint_blue("!"),
            DriftKind::SymlinkTargetChanged => paint_magenta("@"),
            DriftKind::TypeChanged => paint_cyan("#"),
        }
    } else {
        let mut m = String::new();
        let c = match item.kind {
            DriftKind::Added => '+',
            DriftKind::Removed => '-',
            DriftKind::ContentChanged => '~',
            DriftKind::MetadataChanged => '!',
            DriftKind::SymlinkTargetChanged => '@',
            DriftKind::TypeChanged => '#',
        };
        push_char(&mut m, c);
        assert(m@ =~= seq![kind_mark(item.kind)]);
        m
    };
    assert(prefix@ =~= if use_color {
        ansi_fg(kind_color(item.kind), seq![kind_mark(item.kind)])
    } else {
        seq![kind_mark(item.kind)]
    });
    push_char(&mut prefix, ' ');
    prefix.append(item.path.as_str());
    prefix
}

/// The word that names a kind of drift in the summary.
pub open spec fn kind_label(k: DriftKind) -> Seq<char> {
    match k {
        DriftKind::Added => "added"@,
        DriftKind::Removed => "removed"@,
        DriftKind::ContentChanged => "content-changed"@,
        DriftKind::MetadataChanged => "metadata-changed"@,
        DriftKind::SymlinkTargetChanged => "symlink-target-changed"@,
        DriftKind::TypeChanged => "type-changed"@,
    }
}

/// The count of one kind in a summary.
pub open spec fn summary_count(s: Summary, k: DriftKind) -> nat {
    match k {
        DriftKind::Added => s.added as nat,
        DriftKind::Removed => s.removed as nat,
        DriftKind::ContentChanged => s.content_changed as nat,
        DriftKind::MetadataChanged => s.metadata_changed as nat,
        DriftKind::SymlinkTargetChanged => s.symlink_target_changed as nat,
        DriftKind::TypeChanged => s.type_changed as nat,
    }
}

/// The line shows the number `n` as a whole word, followed by a space and
/// the label, and then by a comma or by the end of the line.
pub open spec fn shows_count(line: Seq<char>, n: nat, label: Seq<char>) -> bool {
    exists|pre: Seq<char>, post: Seq<char>|
        #![trigger pre + decimal_digits(n) + " "@ + label + post]
        line == pre + decimal_digits(n) + " "@ + label + post && pre.len() > 0 && pre.last() == ' '
            && (post.len() == 0 || post[0] == ',')
}

/// One kind's count and label, as the summary shows it.
pub open spec fn count_piece(s: Summary, k: DriftKind) -> Seq<char> {
    decimal_digits(summary_count(s, k)) + " "@ + kind_label(k)
}

/// The first line of the summary: each kind's count and label, in a fixed
/// order, separated by commas.
pub open spec fn summary_line(s: Summary) -> Seq<char> {
    "Drift summary: "@ + count_piece(s, DriftKind::Added) + ", "@ + count_piece(s, DriftKind::Removed)
        + ", "@ + count_piece(s, DriftKind::ContentChanged) + ", "@ + count_piece(
        s,
        DriftKind::MetadataChanged,
    ) + ", "@ + count_piece(s, DriftKind::SymlinkTargetChanged) + ", "@ + count_piece(
        s,
        DriftKind::TypeChanged,
    )
}

/// The lines of the printed summary: the counts; then either that nothing
/// drifted, or a heading and the line of each of the first `max_items` items.
pub open spec fn summary_lines_spec(report: Report, use_color: bool, max_items: usize) -> Seq<
    Seq<char>,
> {
    let head = seq![summary_line(report.summary)];
    if report.items@.len() == 0 {
        head.push("No drift detected."@)
    } else {
        let shown = if max_items < report.items@.len() {
            max_items as int
        } else {
            report.items@.len() as int
        };
        head.push("Top items:"@) + Seq::new(
            shown as nat,
            |i: int| item_line(report.items@[i].kind, report.items@[i].path@, use_color),
        )
    }
}

/// The views of some strings.
pub open spec fn line_views(v: Seq<String>) -> Seq<Seq<char>> {
    v.map_values(|s: String| s@)
}

/// The first line of the summary.
fn format_summary_line(s: &Summary) -> (r: String)
    ensures
        r@ == summary_line(*s),
{
    let mut r = String::from_str("Drift summary: ");
    r.append(decimal_string(s.added).as_str());
    r.append(" ");
    r.append("added");
    r.append(", ");
    r.append(decimal_string(s.removed).as_str());
    r.append(" ");
    r.append("removed");
    r.append(", ");
    r.append(decimal_string(s.content_changed).as_str());
    r.append(" ");
    r.append("content-changed");
    r.append(", ");
    r.append(decimal_string(s.metadata_changed).as_str());
    r.append(" ");
    r.append("metadata-changed");
    r.append(", ");
    r.append(decimal_string(s.symlink_target_changed).as_str());
    r.append(" ");
    r.append("symlink-target-changed");
    r.append(", ");
    r.append(decimal_string(s.type_changed).as_str());
    r.append(" ");
    r.append("type-changed");
    assert(r@ =~= summary_line(*s));
    r
}

/// The lines of the printed summary.
pub fn summary_lines(report: &Report, use_color: bool, max_items: usize) -> (r: Vec<String>)
    ensures
        line_views(r@) == summary_lines_spec(*report, use_color, max_items),
{
    let mut lines: Vec<String> = Vec::new();
    lines.push(format_summary_line(&report.summary));
    if report.items.len() == 0 {
        lines.push(String::from_str("No drift detected."));
        assert(line_views(lines@) =~= summary_lines_spec(*report, use_color, max_items));
        return lines;
    }
    lines.push(String::from_str("Top items:"));
    let shown = if max_items < report.items.len() {
        max_items
    } else {
        report.items.len()
    };
    let ghost head = line_views(lines@);
    let mut i: usize = 0;
    while i < shown
        invariant
            shown <= report.items@.len(),
            i <= shown,
            head.len() == 2,
            line_views(lines@) == head + Seq::new(
                i as nat,
                |k: int| item_line(report.items@[k].kind, report.items@[k].path@, use_color),
            ),
        decreases shown - i,
    {
        let line = format_item(&report.items[i], use_color);
        let ghost before = lines@;
        lines.push(line);
        assert(line_views(lines@) =~= line_views(before).push(line@));
        assert(line_views(lines@) =~= head + Seq::new(
            (i + 1) as nat,
            |k: int| item_line(report.items@[k].kind, report.items@[k].path@, use_color),
        ));
        i = i + 1;
    }
    assert(line_views(lines@) =~= summary_lines_spec(*report, use_color, max_items));
    lines
}

/// A diff item that gets a text diff: content changed between two regular files.
pub open spec fn wants_text_diff(e: DiffEntryView) -> bool {
    &&& e.kind == DriftKind::ContentChanged
    &&& e.before matches Some(b) && b.file_type == FileType::File
    &&& e.after matches Some(a) && a.file_type == FileType::File
}

/// A file to show a text diff for: its path, and where it lies under the
/// baseline root and under the live root.
#[derive(Debug)]
pub struct DiffTarget {
    pub path: FsPath,
    pub baseline_path: FsPath,
    pub live_path: FsPath,
}

/// The files to show text diffs for, in order, with their places under both roots.
pub open spec fn diff_targets_spec(
    entries: Seq<DiffEntryView>,
    baseline_root: Seq<Seq<char>>,
    live_root: Seq<Seq<char>>,
) -> Seq<(Seq<Seq<char>>, Seq<Seq<char>>, Seq<Seq<char>>)>
    decreases entries.len(),
{
    if entries.len() == 0 {
        Seq::empty()
    } else {
        let rest = diff_targets_spec(entries.drop_last(), baseline_root, live_root);
        let e = entries.last();
        if wants_text_diff(e) {
            rest.push(
                (e.path, join_root_spec(baseline_root, e.path), join_root_spec(live_root, e.path)),
            )
        } else {
            rest
        }
    }
}

/// The views of some diff items.
pub open spec fn diff_views(v: Seq<DiffEntry>) -> Seq<DiffEntryView> {
    v.map_values(|e: DiffEntry| e@)
}

/// The views of some diff targets.
pub open spec fn target_views(v: Seq<DiffTarget>) -> Seq<
    (Seq<Seq<char>>, Seq<Seq<char>>, Seq<Seq<char>>),
> {
    v.map_values(|t: DiffTarget| (t.path@, t.baseline_path@, t.live_path@))
}

/// The files to show text diffs for.
pub fn unified_diff_targets(baseline_root: &FsPath, live_root: &FsPath, entries: &[DiffEntry]) -> (r:
    Vec<DiffTarget>)
    ensures
        target_views(r@) == diff_targets_spec(diff_views(entries@), baseline_root@, live_root@),
{
    let ghost all = diff_views(entries@);
    let mut out: Vec<DiffTarget> = Vec::new();
    let mut i: usize = 0;
    while i < entries.len()
        invariant
            i <= entries@.len(),
            all == diff_views(entries@),
            target_views(out@) == diff_targets_spec(all.take(i as int), baseline_root@, live_root@),
        decreases entries@.len() - i,
    {
        let e = &entries[i];
        assert(all.take(i + 1).drop_last() =~= all.take(i as int));
        assert(all.take(i + 1).last() == e@);
        let wanted = match (&e.before, &e.after) {
            (Some(b), Some(a)) => e.kind == DriftKind::ContentChanged && b.file_type == FileType::File
                && a.file_type == FileType::File,
            _ => false,
        };
        if wanted {
            let ghost before = out@;
            out.push(
                DiffTarget {
                    path: e.path.clone(),
                    baseline_path: join_root(baseline_root, &e.path),
                    live_path: join_root(live_root, &e.path),
                },
            );
            assert(target_views(out@) =~= target_views(before).push(
                (e.path@, join_root_spec(baseline_root@, e.path@), join_root_spec(live_root@, e.path@)),
            ));
        }
        i = i + 1;
    }
    assert(all.take(entries@.len() as int) =~= all);
    out
}

/// The bytes start with the given prefix.
pub open spec fn starts_with_bytes(bytes: Seq<u8>, prefix: Seq<u8>) -> bool {
    prefix.len() <= bytes.len() && bytes.subrange(0, prefix.len() as int) == prefix
}

/// The bytes start with a byte order mark of UTF-8, UTF-16 or UTF-32.
pub open spec fn has_byte_order_mark(bytes: Seq<u8>) -> bool {
    starts_with_bytes(bytes, seq![0xEFu8, 0xBBu8, 0xBFu8])
        || starts_with_bytes(bytes, seq![0x00u8, 0x00u8, 0xFEu8, 0xFFu8])
        || starts_with_bytes(bytes, seq![0xFEu8, 0xFFu8])
        || starts_with_bytes(bytes, seq![0xFFu8, 0xFEu8])
}

/// Binary content: no byte order mark, and either a zero byte among the
/// first 1024 bytes or a PDF or PNG signature at the start.
pub open spec fn looks_binary(bytes: Seq<u8>) -> bool {
    &&& !has_byte_order_mark(bytes)
    &&& {
        ||| exists|i: int| 0 <= i < bytes.len() && i < 1024 && bytes[i] == 0u8
        ||| starts_with_bytes(bytes, seq![0x25u8, 0x50u8, 0x44u8, 0x46u8])
        ||| starts_with_bytes(bytes, seq![0x89u8, 0x50u8, 0x4Eu8, 0x47u8])
    }
}

/// Whether content-inspector takes the bytes for binary data.
///
/// Trusted: `content_inspector::inspect` and `ContentType::is_binary`. The
/// crate reports a byte order mark as text, and otherwise binary content
/// when a zero byte occurs among the first 1024 bytes or the buffer starts
/// with `%PDF` or `\x89PNG`; as [`looks_binary`] states.
#[verifier::external_body]
fn is_binary(bytes: &[u8]) -> (r: bool)
    ensures
        r == looks_binary(bytes@),
{
    content_inspector::inspect(bytes).is_binary()
}

/// A name for the text that lossy UTF-8 decoding gives for some bytes.
pub uninterp spec fn utf8_lossy(bytes: Seq<u8>) -> Seq<char>;

/// The bytes decoded as UTF-8, invalid sequences replaced.
///
/// Trusted: `String::from_utf8_lossy`, whose result is named by
/// `utf8_lossy`; as documented, valid UTF-8 decodes to its own text.
#[verifier::external_body]
fn decode_lossy(bytes: &[u8]) -> (r: String)
    ensures
        r@ == utf8_lossy(bytes@),
        vstd::utf8::valid_utf8(bytes@) ==> r@ == vstd::utf8::decode_utf8(bytes@),
{
    String::from_utf8_lossy(bytes).into_owned()
}

/// A name for the bytes of the unified line diff that `similar` writes
/// for two texts, with the given context radius and file headers.
pub uninterp spec fn line_diff_bytes(
    old: Seq<char>,
    new: Seq<char>,
    context_radius: usize,
    header_old: Seq<char>,
    header_new: Seq<char>,
) -> Seq<u8>;

/// Why writing a unified diff failed.
#[derive(Clone, Copy, Debug, PartialEq, Eq, Structural)]
pub enum DiffWriteError {
    /// Writing the diff failed.
    Write,
    /// The written diff was not UTF-8.
    NotUtf8,
}

/// Writes the unified line diff of two texts into bytes.
///
/// Trusted: `similar::TextDiff::from_lines`, then `unified_diff` with
/// `context_radius` and `header`, written by `to_writer` into a byte buffer;
/// the bytes are named by `line_diff_bytes`. Writing into a `Vec<u8>` does
/// not fail, and every piece written is a `str` (the headers, the hunk
/// headers, change markers and line slices of the two texts), so the bytes
/// are always there and are UTF-8.
#[verifier::external_body]
fn write_line_diff(
    old: &str,
    new: &str,
    context_radius: usize,
    header_old: &str,
    header_new: &str,
) -> (r: Option<Vec<u8>>)
    ensures
        r is Some,
        r matches Some(b) ==> b@ == line_diff_bytes(old@, new@, context_radius, header_old@, header_new@),
        r matches Some(b) ==> vstd::utf8::valid_utf8(b@),
{
    let diff = similar::TextDiff::from_lines(old, new);
    let mut output: Vec<u8> = Vec::new();
    match diff.unified_diff().context_radius(context_radius).header(header_old, header_new).to_writer(
        &mut output,
    ) {
        Ok(()) => Some(output),
        Err(_) => None,
    }
}

/// The text of some bytes, when they are UTF-8.
///
/// Trusted: `String::from_utf8`, which fails exactly when the bytes are not
/// UTF-8 and otherwise holds the text they encode.
#[verifier::external_body]
fn utf8_text(bytes: Vec<u8>) -> (r: Option<String>)
    ensures
        r is Some <==> vstd::utf8::valid_utf8(bytes@),
        r matches Some(s) ==> s@ == vstd::utf8::decode_utf8(bytes@),
{
    match String::from_utf8(bytes) {
        Ok(s) => Some(s),
        Err(_) => None,
    }
}

/// Why a text diff could not be rendered, with the displayed path.
#[derive(Debug)]
pub struct DiffRenderError {
    pub kind: DiffWriteError,
    pub path: String,
}

/// The number of context lines around each change.
pub const DIFF_CONTEXT_RADIUS: usize = 3;

/// The file headers of a text diff: `baseline<path>` and `live<path>`.
pub fn diff_headers(display_path: &FsPath) -> (r: (String, String))
    ensures
        r.0@ == "baseline"@ + render_path(display_path@),
        r.1@ == "live"@ + render_path(display_path@),
{
    let shown = display_path.to_string();
    let mut header_old = String::from_str("baseline");
    header_old.append(shown.as_str());
    let mut header_new = String::from_str("live");
    header_new.append(shown.as_str());
    (header_old, header_new)
}

/// The unified diff of a file's baseline and live contents, headed
/// `baseline<path>` and `live<path>`; nothing when either side is binary.
/// For two texts the diff is always rendered.
pub fn render_unified_diff(old_bytes: &[u8], new_bytes: &[u8], display_path: &FsPath) -> (r: Result<
    Option<String>,
    DiffRenderError,
>)
    ensures
        looks_binary(old_bytes@) || looks_binary(new_bytes@) ==> r matches Ok(None),
        !(looks_binary(old_bytes@) || looks_binary(new_bytes@)) ==> (r matches Ok(Some(s))
            && s@ == vstd::utf8::decode_utf8(
            line_diff_bytes(
                utf8_lossy(old_bytes@),
                utf8_lossy(new_bytes@),
                DIFF_CONTEXT_RADIUS,
                "baseline"@ + render_path(display_path@),
                "live"@ + render_path(display_path@),
            ),
        )),
{
    if is_binary(old_bytes) || is_binary(new_bytes) {
        return Ok(None);
    }
    let old_text = decode_lossy(old_bytes);
    let new_text = decode_lossy(new_bytes);
    let shown = display_path.to_string();
    let (header_old, header_new) = diff_headers(display_path);
    match write_line_diff(
        old_text.as_str(),
        new_text.as_str(),
        DIFF_CONTEXT_RADIUS,
        header_old.as_str(),
        header_new.as_str(),
    ) {
        Some(bytes) => match utf8_text(bytes) {
            Some(text) => Ok(Some(text)),
            None => Err(DiffRenderError { kind: DiffWriteError::NotUtf8, path: shown }),
        },
        None => Err(DiffRenderError { kind: DiffWriteError::Write, path: shown }),
    }
}

/// A count and label between a space-ended prefix and a comma-led (or
/// empty) rest are shown as a count.
proof fn lemma_shows_count_intro(pre: Seq<char>, n: nat, label: Seq<char>, post: Seq<char>)
    requires
        pre.len() > 0,
        pre.last() == ' ',
        post.len() == 0 || post[0] == ',',
    ensures
        shows_count(pre + (decimal_digits(n) + " "@ + label) + post, n, label),
{
    assert(pre + (decimal_digits(n) + " "@ + label) + post =~= pre + decimal_digits(n) + " "@ + label
        + post);
}

/// The first line of the printed summary shows each kind's count beside
/// that kind's label.
proof fn lemma_summary_shows_count_of_kind(report: Report, use_color: bool, max_items: usize, k: DriftKind)
    ensures
        shows_count(summary_lines_spec(report, use_color, max_items)[0], summary_count(report.summary, k), kind_label(k)),
        summarizes(report.summary, item_kinds(report.items@)) ==> shows_count(
            summary_lines_spec(report, use_color, max_items)[0],
            count_kind(item_kinds(report.items@), k),
            kind_label(k),
        ),
{
    let sm = report.summary;
    let line = summary_lines_spec(report, use_color, max_items)[0];
    assert(line == summary_line(sm));
    reveal_strlit("Drift summary: ");
    reveal_strlit(", ");
    let c1 = count_piece(sm, DriftKind::Added);
    let c2 = count_piece(sm, DriftKind::Removed);
    let c3 = count_piece(sm, DriftKind::ContentChanged);
    let c4 = count_piece(sm, DriftKind::MetadataChanged);
    let c5 = count_piece(sm, DriftKind::SymlinkTargetChanged);
    let c6 = count_piece(sm, DriftKind::TypeChanged);
    let sep = ", "@;
    let p1 = "Drift summary: "@;
    let p2 = p1 + c1 + sep;
    let p3 = p2 + c2 + sep;
    let p4 = p3 + c3 + sep;
    let p5 = p4 + c4 + sep;
    let p6 = p5 + c5 + sep;
    let n = summary_count(sm, k);
    match k {
        DriftKind::Added => {
            let post = sep + c2 + sep + c3 + sep + c4 + sep + c5 + sep + c6;
            assert(line =~= p1 + c1 + post);
            lemma_shows_count_intro(p1, n, kind_label(k), post);
        },
        DriftKind::Removed => {
            let post = sep + c3 + sep + c4 + sep + c5 + sep + c6;
            assert(line =~= p2 + c2 + post);
            lemma_shows_count_intro(p2, n, kind_label(k), post);
        },
        DriftKind::ContentChanged => {
            let post = sep + c4 + sep + c5 + sep + c6;
            assert(line =~= p3 + c3 + post);
            lemma_shows_count_intro(p3, n, kind_label(k), post);
        },
        DriftKind::MetadataChanged => {
            let post = sep + c5 + sep + c6;
            assert(line =~= p4 + c4 + post);
            lemma_shows_count_intro(p4, n, kind_label(k), post);
        },
        DriftKind::SymlinkTargetChanged => {
            let post = sep + c6;
            assert(line =~= p5 + c5 + post);
            lemma_shows_count_intro(p5, n, kind_label(k), post);
        },
        DriftKind::TypeChanged => {
            let post = Seq::<char>::empty();
            assert(line =~= p6 + c6 + post);
            lemma_shows_count_intro(p6, n, kind_label(k), post);
        },
    }
    if summarizes(sm, item_kinds(report.items@)) {
        assert(n == count_kind(item_kinds(report.items@), k));
    }
}

/// The summary line written out piece by piece.
proof fn lemma_summary_line_text(sm: Summary)
    ensures
        summary_line(sm) == "Drift summary: "@ + decimal_digits(sm.added as nat) + " "@ + "added"@ + ", "@
            + decimal_digits(sm.removed as nat) + " "@ + "removed"@ + ", "@ + decimal_digits(
            sm.content_changed as nat,
        ) + " "@ + "content-changed"@ + ", "@ + decimal_digits(sm.metadata_changed as nat) + " "@
            + "metadata-changed"@ + ", "@ + decimal_digits(sm.symlink_target_changed as nat) + " "@
            + "symlink-target-changed"@ + ", "@ + decimal_digits(sm.type_changed as nat) + " "@
            + "type-changed"@,
{
    let sep = ", "@;
    let sp = " "@;
    let t0 = "Drift summary: "@;
    let d1 = decimal_digits(sm.added as nat);
    let d2 = decimal_digits(sm.removed as nat);
    let d3 = decimal_digits(sm.content_changed as nat);
    let d4 = decimal_digits(sm.metadata_changed as nat);
    let d5 = decimal_digits(sm.symlink_target_changed as nat);
    let d6 = decimal_digits(sm.type_changed as nat);
    lemma_append_piece(t0, d1, sp, "added"@);
    let t1 = t0 + d1 + sp + "added"@ + sep;
    lemma_append_piece(t1, d2, sp, "removed"@);
    let t2 = t1 + d2 + sp + "removed"@ + sep;
    lemma_append_piece(t2, d3, sp, "content-changed"@);
    let t3 = t2 + d3 + sp + "content-changed"@ + sep;
    lemma_append_piece(t3, d4, sp, "metadata-changed"@);
    let t4 = t3 + d4 + sp + "metadata-changed"@ + sep;
    lemma_append_piece(t4, d5, sp, "symlink-target-changed"@);
    let t5 = t4 + d5 + sp + "symlink-target-changed"@ + sep;
    lemma_append_piece(t5, d6, sp, "type-changed"@);
}

/// Appending a three-part piece is appending its parts in turn.
proof fn lemma_append_piece(x: Seq<char>, a: Seq<char>, b: Seq<char>, c: Seq<char>)
    ensures
        x + (a + b + c) == x + a + b + c,
{
    assert(x + (a + b + c) =~= x + a + b + c);
}

/// The first line of the printed summary reads `Drift summary: ` and then
/// the added, removed, content-changed, metadata-changed,
/// symlink-target-changed and type-changed counts, each followed by its
/// label; each count stands as a whole word beside its own label, and for a
/// report whose summary counts its items it is the number of items of that
/// kind.
pub proof fn lemma_summary_shows_counts(report: Report, use_color: bool, max_items: usize)
    ensures
        summary_lines_spec(report, use_color, max_items)[0] == "Drift summary: "@ + decimal_digits(
            report.summary.added as nat,
        ) + " "@ + "added"@ + ", "@ + decimal_digits(report.summary.removed as nat) + " "@ + "removed"@
            + ", "@ + decimal_digits(report.summary.content_changed as nat) + " "@ + "content-changed"@
            + ", "@ + decimal_digits(report.summary.metadata_changed as nat) + " "@
            + "metadata-changed"@ + ", "@ + decimal_digits(report.summary.symlink_target_changed as nat)
            + " "@ + "symlink-target-changed"@ + ", "@ + decimal_digits(report.summary.type_changed as nat)
            + " "@ + "type-changed"@,
        shows_count(summary_lines_spec(report, use_color, max_items)[0], report.summary.added as nat, "added"@),
        shows_count(summary_lines_spec(report, use_color, max_items)[0], report.summary.removed as nat, "removed"@),
        shows_count(
            summary_lines_spec(report, use_color, max_items)[0],
            report.summary.content_changed as nat,
            "content-changed"@,
        ),
        shows_count(
            summary_lines_spec(report, use_color, max_items)[0],
            report.summary.metadata_changed as nat,
            "metadata-changed"@,
        ),
        shows_count(
            summary_lines_spec(report, use_color, max_items)[0],
            report.summary.symlink_target_changed as nat,
            "symlink-target-changed"@,
        ),
        shows_count(
            summary_lines_spec(report, use_color, max_items)[0],
            report.summary.type_changed as nat,
            "type-changed"@,
        ),
        forall|k: DriftKind|
            summarizes(report.summary, item_kinds(report.items@)) ==> #[trigger] shows_count(
                summary_lines_spec(report, use_color, max_items)[0],
                count_kind(item_kinds(report.items@), k),
                kind_label(k),
            ),
{
    lemma_summary_line_text(report.summary);
    assert(summary_lines_spec(report, use_color, max_items)[0] == summary_line(report.summary));
    lemma_summary_shows_count_of_kind(report, use_color, max_items, DriftKind::Added);
    lemma_summary_shows_count_of_kind(report, use_color, max_items, DriftKind::Removed);
    lemma_summary_shows_count_of_kind(report, use_color, max_items, DriftKind::ContentChanged);
    lemma_summary_shows_count_of_kind(report, use_color, max_items, DriftKind::MetadataChanged);
    lemma_summary_shows_count_of_kind(report, use_color, max_items, DriftKind::SymlinkTargetChanged);
    lemma_summary_shows_count_of_kind(report, use_color, max_items, DriftKind::TypeChanged);
    assert forall|k: DriftKind|
        summarizes(report.summary, item_kinds(report.items@)) implies #[trigger] shows_count(
            summary_lines_spec(report, use_color, max_items)[0],
            count_kind(item_kinds(report.items@), k),
            kind_label(k),
        ) by {
        lemma_summary_shows_count_of_kind(report, use_color, max_items, k);
    }
}

} // verus!
