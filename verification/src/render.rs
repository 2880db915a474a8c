//! The lines that show the reports, each with the style it is printed in.

use vstd::prelude::*;
use vstd::utf8::*;
use vstd::string::*;
use crate::config::opt_text;
use crate::plan::words_of;
use crate::project::{InfoView, ProjectInfo};
use crate::report::Group;
use crate::text::{keep_non_empty, non_empty, split, split_str, texts, utf8};

verus! {

broadcast use {encode_utf8_decode_utf8};

/// How a piece of text is printed.
#[derive(Clone, Copy, Debug, PartialEq, Eq, Structural)]
pub enum Style {
    /// White and bold.
    Bold,
    Yellow,
    Green,
    /// White and dimmed.
    Dimmed,
    /// White.
    Plain,
    BrightBlue,
    Red,
    /// Red and bold.
    RedBold,
}

/// A piece of text to print, with its style, and whether a line break
/// follows it.
pub struct Segment {
    pub text: String,
    pub style: Style,
    pub newline: bool,
}

/// A piece of output as plain values.
#[verifier::ext_equal]
pub struct SegmentView {
    pub text: Seq<char>,
    pub style: Style,
    pub newline: bool,
}

impl View for Segment {
    type V = SegmentView;

    open spec fn view(&self) -> SegmentView {
        SegmentView { text: self.text@, style: self.style, newline: self.newline }
    }
}

/// The pieces of output as plain values.
pub open spec fn views(v: Seq<Segment>) -> Seq<SegmentView> {
    v.map_values(|s: Segment| s@)
}

/// A piece of output.
pub open spec fn seg(text: Seq<char>, style: Style, newline: bool) -> SegmentView {
    SegmentView { text, style, newline }
}

/// `n` spaces.
pub open spec fn spaces(n: int) -> Seq<char> {
    Seq::new(n as nat, |i: int| ' ')
}

/// `s` filled with spaces on the right to `width` characters (`{:<width}`).
pub open spec fn pad_right(s: Seq<char>, width: int) -> Seq<char> {
    if s.len() < width {
        s + spaces(width - s.len())
    } else {
        s
    }
}

/// `s` filled with spaces on the left to `width` characters (`{:>width}`).
pub open spec fn pad_left(s: Seq<char>, width: int) -> Seq<char> {
    if s.len() < width {
        spaces(width - s.len()) + s
    } else {
        s
    }
}

/// The texts with `sep` between each two.
pub open spec fn join(ss: Seq<Seq<char>>, sep: Seq<char>) -> Seq<char>
    decreases ss.len(),
{
    if ss.len() == 0 {
        Seq::empty()
    } else if ss.len() == 1 {
        ss[0]
    } else {
        join(ss.drop_last(), sep) + sep + ss.last()
    }
}

/// A line under a repository, indented by eight spaces.
pub open spec fn indented(line: Seq<char>) -> Seq<char> {
    "        "@ + line
}

/// The repository has modified files.
pub open spec fn dirty(p: InfoView) -> bool {
    p.repo_status.modified_files.len() > 0
}

/// The repository's branch is ahead of or behind its tracking branch.
pub open spec fn diverged(p: InfoView) -> bool {
    p.repo_status.status.len() > 0
}

/// The style of a repository's name: yellow when dirty, else green when
/// diverged, else dimmed.
pub open spec fn header_style(p: InfoView) -> Style {
    if dirty(p) {
        Style::Yellow
    } else if diverged(p) {
        Style::Green
    } else {
        Style::Dimmed
    }
}

/// The style of the rest of a repository's lines: white when dirty or
/// diverged, else dimmed.
pub open spec fn body_style(p: InfoView) -> Style {
    if dirty(p) || diverged(p) {
        Style::Plain
    } else {
        Style::Dimmed
    }
}

/// The repository's name, indented and filled to twenty characters.
pub open spec fn header_text(p: InfoView) -> Seq<char> {
    "    "@ + pad_right(p.name, 20)
}

/// One indented line per modified file.
pub open spec fn file_lines(files: Seq<Seq<char>>, style: Style) -> Seq<SegmentView> {
    files.map_values(|f: Seq<char>| seg(indented(f), style, true))
}

/// The lines of a command's output, indented, in one style.
pub open spec fn text_lines(lines: Seq<Seq<u8>>, style: Style) -> Seq<SegmentView> {
    lines.map_values(|l: Seq<u8>| seg(indented(decode_utf8(l)), style, true))
}

/// The count of commits ahead that the status note names: the digits after
/// the first `ahead ` of the note that is followed by one or more digits,
/// as the pattern `ahead (?P<ahead>\d+)` captures them.
pub uninterp spec fn ahead_count(note: Seq<char>) -> Option<Seq<char>>;

/// `regex::Regex::new` and `Regex::captures` with the pattern
/// `ahead (?P<ahead>\d+)`: the text of the group `ahead` in the first match
/// in `note`, or `None` when nothing matches. What it captures is left to
/// the name `ahead_count`.
#[verifier::external_body]
fn capture_ahead(note: &str) -> (r: Option<String>)
    ensures
        opt_text(r) == ahead_count(note@),
{
    let re = regex::Regex::new(r"ahead (?P<ahead>\d+)").unwrap();
    re.captures(note).map(|c| c["ahead"].to_string())
}

/// The `git` arguments that list the commits a repository is ahead by,
/// when its status note says it is ahead.
pub open spec fn ahead_log(note: Seq<char>) -> Option<Seq<Seq<char>>> {
    match ahead_count(note) {
        Some(n) => Some(count_log(n)),
        None => None,
    }
}

/// The `git log` arguments that list the last `count` commits.
pub open spec fn count_log(count: Seq<char>) -> Seq<Seq<char>> {
    seq!["log"@, "--oneline"@, "-n"@ + count]
}

/// The `git log` arguments that list the last `count` commits:
/// `log --oneline -n<count>`.
pub fn count_log_args(count: &str) -> (r: Vec<String>)
    ensures
        words_of(r@) == count_log(count@),
{
    let mut n = "-n".to_owned();
    n.append(count);
    let mut v: Vec<String> = Vec::new();
    v.push("log".to_owned());
    v.push("--oneline".to_owned());
    v.push(n);
    assert(words_of(v@) =~= count_log(count@));
    v
}

/// The `git log` arguments that list the commits a repository is ahead by,
/// when its status note (such as `[ahead 2]`) says it is ahead.
pub fn ahead_log_args(note: &str) -> (r: Option<Vec<String>>)
    ensures
        match r {
            Some(v) => ahead_log(note@) == Some(words_of(v@)),
            None => ahead_log(note@) is None,
        },
{
    match capture_ahead(note) {
        Some(n) => Some(count_log_args(n.as_str())),
        None => None,
    }
}

/// The lines that show what `git log` listed for a repository that is
/// ahead: each line of its output in bright blue, or the failure in red.
pub open spec fn log_lines(log: Option<Result<Seq<char>, Seq<char>>>) -> Seq<SegmentView> {
    match log {
        Some(Ok(out)) => text_lines(split(utf8(out), 0x0a), Style::BrightBlue),
        Some(Err(e)) => seq![seg(e, Style::Red, true)],
        None => Seq::empty(),
    }
}

/// The line of a repository in the status report: current branch (right
/// aligned to 10), ahead/behind note (15), tags (20) and remote branches
/// (left aligned to 20), the lists joined with commas.
pub open spec fn status_body(p: InfoView) -> Seq<char> {
    pad_left(p.repo_status.current_branch, 10) + " "@ + pad_left(p.repo_status.status, 15) + pad_left(
        join(p.tags, ","@),
        20,
    ) + " "@ + pad_right(join(p.remote_branches, ","@), 20)
}

/// What the status report shows of one repository: its name, its line, the
/// commits it is ahead by (when `ahead`), and its modified files.
pub open spec fn status_lines_given(p: InfoView, ahead: bool, log: Option<Result<Seq<char>, Seq<char>>>) -> Seq<SegmentView> {
    seq![seg(header_text(p), header_style(p), false), seg(status_body(p), body_style(p), true)] + (
    if ahead {
        log_lines(log)
    } else {
        Seq::empty()
    }) + file_lines(p.repo_status.modified_files, body_style(p))
}

/// What the status report shows of one repository: the commits it is ahead
/// by appear when its status note says it is ahead.
pub open spec fn status_lines(p: InfoView, log: Option<Result<Seq<char>, Seq<char>>>) -> Seq<SegmentView> {
    status_lines_given(p, ahead_count(p.repo_status.status) is Some, log)
}

/// The line of a repository in the report of another command: current
/// branch (right aligned to 10) and ahead/behind note.
pub open spec fn command_body(p: InfoView) -> Seq<char> {
    pad_left(p.repo_status.current_branch, 10) + " "@ + p.repo_status.status
}

/// What a command printed: its non-empty output lines (red and bold when it
/// failed), or else the non-empty lines of its failure in red and bold.
pub open spec fn output_lines_of(p: InfoView) -> Seq<SegmentView> {
    if p.cmd_output.len() > 0 {
        text_lines(
            non_empty(split(utf8(p.cmd_output), 0x0a)),
            if p.cmd_error is Some {
                Style::RedBold
            } else {
                body_style(p)
            },
        )
    } else {
        match p.cmd_error {
            Some(e) => text_lines(non_empty(split(utf8(e), 0x0a)), Style::RedBold),
            None => Seq::empty(),
        }
    }
}

/// What the report of another command shows of one repository.
pub open spec fn command_lines(p: InfoView) -> Seq<SegmentView> {
    seq![seg(header_text(p), header_style(p), false), seg(command_body(p), body_style(p), true)]
        + file_lines(p.repo_status.modified_files, body_style(p)) + output_lines_of(p)
}

/// The reports of a group as plain values.
pub open spec fn infos(ps: Seq<ProjectInfo>) -> Seq<InfoView> {
    ps.map_values(|p: ProjectInfo| p@)
}

/// The status report of the repositories `ps` of a group.
pub open spec fn status_group(ps: Seq<InfoView>, logs: Seq<Option<Result<Seq<char>, Seq<char>>>>) -> Seq<SegmentView>
    decreases ps.len(),
{
    if ps.len() == 0 {
        Seq::empty()
    } else {
        status_group(ps.drop_last(), logs.drop_last()) + status_lines(ps.last(), logs.last())
    }
}

/// The report of another command for the repositories `ps` of a group.
pub open spec fn command_group(ps: Seq<InfoView>) -> Seq<SegmentView>
    decreases ps.len(),
{
    if ps.len() == 0 {
        Seq::empty()
    } else {
        command_group(ps.drop_last()) + command_lines(ps.last())
    }
}

/// The replies of the `git log` runs as plain values.
pub open spec fn log_texts(v: Seq<Option<Result<String, String>>>) -> Seq<Option<Result<Seq<char>, Seq<char>>>> {
    v.map_values(|r: Option<Result<String, String>>| crate::project::reply_text(r))
}

/// The status report: each group's tracking branch in bold, then what it
/// shows of each of the group's repositories.
pub open spec fn status_report(gs: Seq<Group>, logs: Seq<Vec<Option<Result<String, String>>>>) -> Seq<SegmentView>
    decreases gs.len(),
{
    if gs.len() == 0 {
        Seq::empty()
    } else {
        status_report(gs.drop_last(), logs.drop_last()) + seq![seg(gs.last().tracking_branch@, Style::Bold, true)]
            + status_group(infos(gs.last().projects@), log_texts(logs.last()@))
    }
}

/// The report of another command, grouped the same way.
pub open spec fn command_report(gs: Seq<Group>) -> Seq<SegmentView>
    decreases gs.len(),
{
    if gs.len() == 0 {
        Seq::empty()
    } else {
        command_report(gs.drop_last()) + seq![seg(gs.last().tracking_branch@, Style::Bold, true)]
            + command_group(infos(gs.last().projects@))
    }
}

/// In the status report every modified file of a repository has a line of
/// its own, `f` indented by eight spaces, in plain white, after the
/// repository's other lines, whether or not its note says it is ahead and
/// whatever `git log` listed.
pub proof fn law_status_lists_every_modified_file(
    p: InfoView,
    ahead: bool,
    log: Option<Result<Seq<char>, Seq<char>>>,
)
    ensures
        status_lines_given(p, ahead, log).len() >= 2 + p.repo_status.modified_files.len(),
        forall|k: int|
            0 <= k < p.repo_status.modified_files.len() ==> #[trigger] status_lines_given(p, ahead, log)[status_lines_given(
                p,
                ahead,
                log,
            ).len() - p.repo_status.modified_files.len() + k] == (SegmentView {
                text: "        "@ + p.repo_status.modified_files[k],
                style: Style::Plain,
                newline: true,
            }),
{
    let r = status_lines_given(p, ahead, log);
    let m = p.repo_status.modified_files;
    let head = seq![seg(header_text(p), header_style(p), false), seg(status_body(p), body_style(p), true)] + (
    if ahead {
        log_lines(log)
    } else {
        Seq::empty()
    });
    let files = file_lines(m, body_style(p));
    assert(r == head + files);
    assert forall|k: int| 0 <= k < m.len() implies #[trigger] r[r.len() - m.len() + k] == (SegmentView {
        text: "        "@ + m[k],
        style: Style::Plain,
        newline: true,
    }) by {
        assert(r[head.len() + k] == files[k]);
    }
}

/// `field` shows `x` right-aligned in `width` characters: spaces before it,
/// and nothing of `x` cut.
pub open spec fn right_aligned(field: Seq<char>, x: Seq<char>, width: int) -> bool {
    &&& field.len() == (if x.len() < width { width } else { x.len() as int })
    &&& field.subrange(field.len() - x.len(), field.len() as int) == x
    &&& forall|i: int| 0 <= i < field.len() - x.len() ==> #[trigger] field[i] == ' '
}

/// `field` shows `x` left-aligned in `width` characters: spaces after it,
/// and nothing of `x` cut.
pub open spec fn left_aligned(field: Seq<char>, x: Seq<char>, width: int) -> bool {
    &&& field.len() == (if x.len() < width { width } else { x.len() as int })
    &&& field.subrange(0, x.len() as int) == x
    &&& forall|i: int| x.len() <= i < field.len() ==> #[trigger] field[i] == ' '
}

proof fn lemma_pad_left(x: Seq<char>, width: int)
    ensures
        right_aligned(pad_left(x, width), x, width),
{
    let f = pad_left(x, width);
    assert(f.subrange(f.len() - x.len(), f.len() as int) =~= x);
}

proof fn lemma_pad_right(x: Seq<char>, width: int)
    ensures
        left_aligned(pad_right(x, width), x, width),
{
    let f = pad_right(x, width);
    assert(f.subrange(0, x.len() as int) =~= x);
}

/// Both reports open a repository with its name, after four spaces and
/// left-aligned in twenty characters, with no line break: yellow when it has
/// modified files, else green when its note is not empty, else dimmed; its
/// other lines are plain white unless it is clean and in step, when they are
/// dimmed.
pub proof fn law_repository_header(p: InfoView, ahead: bool, log: Option<Result<Seq<char>, Seq<char>>>)
    ensures
        ({
            let h = status_lines_given(p, ahead, log)[0];
            &&& h == command_lines(p)[0]
            &&& h.newline == false
            &&& h.text.len() >= 4
            &&& h.text.take(4) == "    "@
            &&& left_aligned(h.text.skip(4), p.name, 20)
            &&& h.style == (if p.repo_status.modified_files.len() > 0 {
                Style::Yellow
            } else if p.repo_status.status.len() > 0 {
                Style::Green
            } else {
                Style::Dimmed
            })
            &&& body_style(p) == (if p.repo_status.modified_files.len() > 0 || p.repo_status.status.len() > 0 {
                Style::Plain
            } else {
                Style::Dimmed
            })
        }),
{
    reveal_strlit("    ");
    let t = header_text(p);
    lemma_pad_right(p.name, 20);
    assert(t.take(4) =~= "    "@);
    assert(t.skip(4) =~= pad_right(p.name, 20));
}

/// The line of a repository in the status report is made of its current
/// branch right-aligned in ten characters, a space, its ahead/behind note
/// right-aligned in fifteen, its tags (joined by commas) right-aligned in
/// twenty, a space, and its remote branches (joined by commas) left-aligned
/// in twenty.
pub proof fn law_status_branch_line(p: InfoView, ahead: bool, log: Option<Result<Seq<char>, Seq<char>>>)
    ensures
        status_lines_given(p, ahead, log)[1].style == body_style(p),
        exists|a: Seq<char>, b: Seq<char>, c: Seq<char>, d: Seq<char>|
            {
                &&& status_lines_given(p, ahead, log)[1].text == a + " "@ + b + c + " "@ + d
                &&& right_aligned(a, p.repo_status.current_branch, 10)
                &&& right_aligned(b, p.repo_status.status, 15)
                &&& right_aligned(c, join(p.tags, ","@), 20)
                &&& left_aligned(d, join(p.remote_branches, ","@), 20)
            },
{
    let a = pad_left(p.repo_status.current_branch, 10);
    let b = pad_left(p.repo_status.status, 15);
    let c = pad_left(join(p.tags, ","@), 20);
    let d = pad_right(join(p.remote_branches, ","@), 20);
    lemma_pad_left(p.repo_status.current_branch, 10);
    lemma_pad_left(p.repo_status.status, 15);
    lemma_pad_left(join(p.tags, ","@), 20);
    lemma_pad_right(join(p.remote_branches, ","@), 20);
    assert(status_lines_given(p, ahead, log)[1].text == a + " "@ + b + c + " "@ + d);
}

/// In the report of another command every modified file of a repository
/// has a line of its own, `f` indented by eight spaces, in plain white,
/// right after the repository's branch line.
pub proof fn law_command_lists_every_modified_file(p: InfoView)
    ensures
        command_lines(p).len() >= 2 + p.repo_status.modified_files.len(),
        forall|k: int|
            0 <= k < p.repo_status.modified_files.len() ==> #[trigger] command_lines(p)[2 + k] == (SegmentView {
                text: "        "@ + p.repo_status.modified_files[k],
                style: Style::Plain,
                newline: true,
            }),
{
    let m = p.repo_status.modified_files;
    let head = seq![seg(header_text(p), header_style(p), false), seg(command_body(p), body_style(p), true)];
    let files = file_lines(m, body_style(p));
    assert(command_lines(p) == head + files + output_lines_of(p));
    assert forall|k: int| 0 <= k < m.len() implies #[trigger] command_lines(p)[2 + k] == (SegmentView {
        text: "        "@ + m[k],
        style: Style::Plain,
        newline: true,
    }) by {
        assert((head + files)[2 + k] == files[k]);
    }
}

/// The branch line of a repository in the report of another command: the
/// current branch right-aligned in ten characters (spaces before it, none
/// cut), one space, then the ahead/behind note unchanged.
pub proof fn law_command_branch_line(p: InfoView)
    ensures
        ({
            let line = command_lines(p)[1].text;
            let c = p.repo_status.current_branch;
            let s = p.repo_status.status;
            let w = if c.len() < 10 { 10 } else { c.len() as int };
            &&& line.len() == w + 1 + s.len()
            &&& forall|i: int| 0 <= i < w - c.len() ==> #[trigger] line[i] == ' '
            &&& line.subrange(w - c.len(), w) == c
            &&& line[w] == ' '
            &&& line.subrange(w + 1, line.len() as int) == s
        }),
{
    let line = command_lines(p)[1].text;
    let c = p.repo_status.current_branch;
    let s = p.repo_status.status;
    let w = if c.len() < 10 { 10 } else { c.len() as int };
    assert(line == pad_left(c, 10) + " "@ + s);
    reveal_strlit(" ");
    assert(pad_left(c, 10).len() == w);
    assert(line.subrange(w - c.len(), w) =~= c);
    assert(line.subrange(w + 1, line.len() as int) =~= s);
}

/// Appends `n` spaces.
fn push_spaces(r: &mut String, n: usize)
    ensures
        final(r)@ == old(r)@ + spaces(n as int),
{
    proof {
        reveal_strlit(" ");
    }
    let ghost start = r@;
    let mut k: usize = 0;
    assert(spaces(0) =~= Seq::<char>::empty());
    assert(start + spaces(0) =~= start);
    while k < n
        invariant
            k <= n,
            " "@ == seq![' '],
            r@ == start + spaces(k as int),
        decreases n - k,
    {
        r.append(" ");
        assert(spaces(k + 1) =~= spaces(k as int).push(' '));
        assert(start + spaces(k + 1) =~= start + spaces(k as int) + " "@);
        k += 1;
    }
}

/// `s` filled with spaces on the right to `width` characters.
fn padded_right(s: &str, width: usize) -> (r: String)
    ensures
        r@ == pad_right(s@, width as int),
{
    let mut r = s.to_owned();
    let n = s.unicode_len();
    if n < width {
        push_spaces(&mut r, width - n);
    }
    r
}

/// `s` filled with spaces on the left to `width` characters.
fn padded_left(s: &str, width: usize) -> (r: String)
    ensures
        r@ == pad_left(s@, width as int),
{
    let mut r = String::new();
    let n = s.unicode_len();
    if n < width {
        push_spaces(&mut r, width - n);
    }
    r.append(s);
    assert(spaces(0) =~= Seq::<char>::empty());
    r
}

/// The texts with `sep` between each two.
fn joined(v: &Vec<String>, sep: &str) -> (r: String)
    ensures
        r@ == join(texts(v@), sep@),
{
    let ghost ts = texts(v@);
    let mut r = String::new();
    let mut i: usize = 0;
    assert(ts.take(0) =~= Seq::<Seq<char>>::empty());
    while i < v.len()
        invariant
            i <= v@.len(),
            ts == texts(v@),
            r@ == join(ts.take(i as int), sep@),
        decreases v@.len() - i,
    {
        assert(ts.take(i + 1).drop_last() =~= ts.take(i as int));
        assert(ts.take(i + 1).last() == v@[i as int]@);
        if i > 0 {
            r.append(sep);
        } else {
            assert(ts.take(1) =~= seq![v@[0]@]);
        }
        r.append(v[i].as_str());
        i += 1;
    }
    assert(ts.take(v@.len() as int) =~= ts);
    r
}

/// `line` indented by eight spaces.
fn indent(line: &str) -> (r: String)
    ensures
        r@ == indented(line@),
{
    let mut r = "        ".to_owned();
    r.append(line);
    r
}

/// One indented segment per piece, in one style.
fn piece_lines(pieces: &Vec<&str>, style: Style) -> (r: Vec<Segment>)
    ensures
        views(r@) == text_lines(pieces@.map_values(|x: &str| x.spec_bytes()), style),
{
    let ghost ls = pieces@.map_values(|x: &str| x.spec_bytes());
    let mut out: Vec<Segment> = Vec::new();
    let mut i: usize = 0;
    while i < pieces.len()
        invariant
            i <= pieces@.len(),
            ls == pieces@.map_values(|x: &str| x.spec_bytes()),
            views(out@) == text_lines(ls.take(i as int), style),
        decreases pieces@.len() - i,
    {
        let piece = pieces[i];
        assert(decode_utf8(encode_utf8(piece@)) == piece@);
        let ghost before = out@;
        out.push(Segment { text: indent(piece), style, newline: true });
        assert(views(out@) =~= views(before).push(seg(indented(piece@), style, true)));
        assert(ls.take(i + 1) =~= ls.take(i as int).push(piece.spec_bytes()));
        assert(text_lines(ls.take(i + 1), style) =~= text_lines(ls.take(i as int), style).push(
            seg(indented(decode_utf8(piece.spec_bytes())), style, true),
        ));
        i += 1;
    }
    assert(ls.take(pieces@.len() as int) =~= ls);
    out
}

/// One indented segment per modified file.
fn file_segments(files: &Vec<String>, style: Style) -> (r: Vec<Segment>)
    ensures
        views(r@) == file_lines(texts(files@), style),
{
    let ghost fs = texts(files@);
    let mut out: Vec<Segment> = Vec::new();
    let mut i: usize = 0;
    while i < files.len()
        invariant
            i <= files@.len(),
            fs == texts(files@),
            views(out@) == file_lines(fs.take(i as int), style),
        decreases files@.len() - i,
    {
        let ghost before = out@;
        out.push(Segment { text: indent(files[i].as_str()), style, newline: true });
        assert(views(out@) =~= views(before).push(seg(indented(files@[i as int]@), style, true)));
        assert(fs.take(i + 1) =~= fs.take(i as int).push(files@[i as int]@));
        assert(file_lines(fs.take(i + 1), style) =~= file_lines(fs.take(i as int), style).push(
            seg(indented(files@[i as int]@), style, true),
        ));
        i += 1;
    }
    assert(fs.take(files@.len() as int) =~= fs);
    out
}

/// Appends `more` to `out`.
fn extend(out: &mut Vec<Segment>, more: Vec<Segment>)
    ensures
        views(final(out)@) == views(old(out)@) + views(more@),
{
    let mut more = more;
    let ghost m = more@;
    out.append(&mut more);
    assert(views(out@) =~= views(old(out)@) + views(m));
}

/// The style of a repository's name.
fn name_style(p: &ProjectInfo) -> (r: Style)
    ensures
        r == header_style(p@),
{
    if p.repo_status.modified_files.len() > 0 {
        Style::Yellow
    } else if !p.repo_status.status.as_str().is_empty() {
        Style::Green
    } else {
        Style::Dimmed
    }
}

/// The style of a repository's other lines.
fn line_style(p: &ProjectInfo) -> (r: Style)
    ensures
        r == body_style(p@),
{
    if p.repo_status.modified_files.len() > 0 || !p.repo_status.status.as_str().is_empty() {
        Style::Plain
    } else {
        Style::Dimmed
    }
}

/// The repository's name segment.
fn name_segment(p: &ProjectInfo) -> (r: Segment)
    ensures
        r@ == seg(header_text(p@), header_style(p@), false),
{
    let mut text = "    ".to_owned();
    text.append(padded_right(p.name.as_str(), 20).as_str());
    Segment { text, style: name_style(p), newline: false }
}

/// What the status report shows of one repository, given what `git log`
/// listed when the repository is ahead.
pub fn render_status_project(p: &ProjectInfo, log: &Option<Result<String, String>>) -> (r: Vec<Segment>)
    ensures
        views(r@) == status_lines(p@, crate::project::reply_text(*log)),
{
    let ahead = capture_ahead(p.repo_status.status.as_str()).is_some();
    status_project_lines(p, ahead, log)
}

/// What the status report shows of one repository, given whether its note
/// says it is ahead and what `git log` listed.
pub fn status_project_lines(p: &ProjectInfo, ahead: bool, log: &Option<Result<String, String>>) -> (r: Vec<Segment>)
    ensures
        views(r@) == status_lines_given(p@, ahead, crate::project::reply_text(*log)),
{
    let style = line_style(p);
    let mut body = padded_left(p.repo_status.current_branch.as_str(), 10);
    body.append(" ");
    body.append(padded_left(p.repo_status.status.as_str(), 15).as_str());
    body.append(padded_left(joined(&p.tags, ",").as_str(), 20).as_str());
    body.append(" ");
    body.append(padded_right(joined(&p.remote_branches, ",").as_str(), 20).as_str());
    let mut out: Vec<Segment> = Vec::new();
    out.push(name_segment(p));
    out.push(Segment { text: body, style, newline: true });
    assert(views(out@) =~= seq![seg(header_text(p@), header_style(p@), false), seg(status_body(p@), body_style(p@), true)]);
    if ahead {
        match log {
            Some(Ok(text)) => {
                let pieces = split_str(text.as_str(), 0x0a);
                extend(&mut out, piece_lines(&pieces, Style::BrightBlue));
            },
            Some(Err(e)) => {
                let mut v: Vec<Segment> = Vec::new();
                v.push(Segment { text: e.clone(), style: Style::Red, newline: true });
                assert(views(v@) =~= seq![seg(e@, Style::Red, true)]);
                extend(&mut out, v);
            },
            None => {},
        }
    }
    extend(&mut out, file_segments(&p.repo_status.modified_files, style));
    out
}

/// What the report of another command shows of one repository.
pub fn render_command_project(p: &ProjectInfo) -> (r: Vec<Segment>)
    ensures
        views(r@) == command_lines(p@),
{
    let style = line_style(p);
    let mut body = padded_left(p.repo_status.current_branch.as_str(), 10);
    body.append(" ");
    body.append(p.repo_status.status.as_str());
    let mut out: Vec<Segment> = Vec::new();
    out.push(name_segment(p));
    out.push(Segment { text: body, style, newline: true });
    assert(views(out@) =~= seq![seg(header_text(p@), header_style(p@), false), seg(command_body(p@), body_style(p@), true)]);
    extend(&mut out, file_segments(&p.repo_status.modified_files, style));
    if !p.cmd_output.as_str().is_empty() {
        let pieces = split_str(p.cmd_output.as_str(), 0x0a);
        let lines = keep_non_empty(&pieces);
        let out_style = if p.cmd_error.is_some() { Style::RedBold } else { style };
        extend(&mut out, piece_lines(&lines, out_style));
    } else if let Some(e) = &p.cmd_error {
        let pieces = split_str(e.as_str(), 0x0a);
        let lines = keep_non_empty(&pieces);
        extend(&mut out, piece_lines(&lines, Style::RedBold));
    }
    out
}

/// The status report of all groups, given for each repository what
/// `git log` listed when its status note says it is ahead.
pub fn render_status(groups: &Vec<Group>, logs: &Vec<Vec<Option<Result<String, String>>>>) -> (r: Vec<Segment>)
    requires
        logs@.len() == groups@.len(),
        forall|g: int| 0 <= g < groups@.len() ==> (#[trigger] logs@[g])@.len() == groups@[g].projects@.len(),
    ensures
        views(r@) == status_report(groups@, logs@),
{
    let mut out: Vec<Segment> = Vec::new();
    let mut g: usize = 0;
    while g < groups.len()
        invariant
            g <= groups@.len(),
            logs@.len() == groups@.len(),
            forall|h: int| 0 <= h < groups@.len() ==> (#[trigger] logs@[h])@.len() == groups@[h].projects@.len(),
            views(out@) == status_report(groups@.take(g as int), logs@.take(g as int)),
        decreases groups@.len() - g,
    {
        let group = &groups[g];
        let ls = &logs[g];
        let ghost ps = infos(group.projects@);
        let ghost lt = log_texts(ls@);
        let ghost start = views(out@);
        let mut title: Vec<Segment> = Vec::new();
        title.push(Segment { text: group.tracking_branch.clone(), style: Style::Bold, newline: true });
        assert(views(title@) =~= seq![seg(group.tracking_branch@, Style::Bold, true)]);
        extend(&mut out, title);
        let ghost head = views(out@);
        let mut j: usize = 0;
        assert(ps.take(0) =~= Seq::<InfoView>::empty());
        while j < group.projects.len()
            invariant
                j <= group.projects@.len(),
                ls@.len() == group.projects@.len(),
                ps == infos(group.projects@),
                lt == log_texts(ls@),
                views(out@) == head + status_group(ps.take(j as int), lt.take(j as int)),
            decreases group.projects@.len() - j,
        {
            let lines = render_status_project(&group.projects[j], &ls[j]);
            assert(ps.take(j + 1).drop_last() =~= ps.take(j as int));
            assert(lt.take(j + 1).drop_last() =~= lt.take(j as int));
            assert(ps.take(j + 1).last() == group.projects@[j as int]@);
            assert(lt.take(j + 1).last() == crate::project::reply_text(ls@[j as int]));
            extend(&mut out, lines);
            j += 1;
        }
        assert(ps.take(group.projects@.len() as int) =~= ps);
        assert(lt.take(group.projects@.len() as int) =~= lt);
        assert(groups@.take(g + 1).drop_last() =~= groups@.take(g as int));
        assert(logs@.take(g + 1).drop_last() =~= logs@.take(g as int));
        assert(groups@.take(g + 1).last() == groups@[g as int]);
        assert(logs@.take(g + 1).last() == logs@[g as int]);
        g += 1;
    }
    assert(groups@.take(groups@.len() as int) =~= groups@);
    assert(logs@.take(logs@.len() as int) =~= logs@);
    out
}

/// The report of another command for all groups.
pub fn render_command(groups: &Vec<Group>) -> (r: Vec<Segment>)
    ensures
        views(r@) == command_report(groups@),
{
    let mut out: Vec<Segment> = Vec::new();
    let mut g: usize = 0;
    while g < groups.len()
        invariant
            g <= groups@.len(),
            views(out@) == command_report(groups@.take(g as int)),
        decreases groups@.len() - g,
    {
        let group = &groups[g];
        let ghost ps = infos(group.projects@);
        let mut title: Vec<Segment> = Vec::new();
        title.push(Segment { text: group.tracking_branch.clone(), style: Style::Bold, newline: true });
        assert(views(title@) =~= seq![seg(group.tracking_branch@, Style::Bold, true)]);
        extend(&mut out, title);
        let ghost head = views(out@);
        let mut j: usize = 0;
        assert(ps.take(0) =~= Seq::<InfoView>::empty());
        while j < group.projects.len()
            invariant
                j <= group.projects@.len(),
                ps == infos(group.projects@),
                views(out@) == head + command_group(ps.take(j as int)),
            decreases group.projects@.len() - j,
        {
            let lines = render_command_project(&group.projects[j]);
            assert(ps.take(j + 1).drop_last() =~= ps.take(j as int));
            assert(ps.take(j + 1).last() == group.projects@[j as int]@);
            extend(&mut out, lines);
            j += 1;
        }
        assert(ps.take(group.projects@.len() as int) =~= ps);
        assert(groups@.take(g + 1).drop_last() =~= groups@.take(g as int));
        assert(groups@.take(g + 1).last() == groups@[g as int]);
        g += 1;
    }
    assert(groups@.take(groups@.len() as int) =~= groups@);
    out
}

} // verus!
