//! What `git status --porcelain -b` and `git log --decorate=short -1` say
//! about a repository.

use vstd::prelude::*;
use vstd::utf8::*;
use vstd::string::*;
use crate::text::{
    bytes_eq, decoded, find_byte, find_dots, first_dots, first_index, has_prefix, keep_non_empty,
    last_index, lemma_ascii_boundaries, non_empty, rfind_byte, slice, split, split_str, starts_with,
    strip_prefix, texts, utf8,
};

verus! {

broadcast use {encode_utf8_valid_utf8, encode_utf8_decode_utf8, is_char_boundary_start_end_of_seq};

/// The branch state of one repository.
pub struct RepoStatus {
    pub current_branch: String,
    pub tracking_branch: String,
    /// The bracketed ahead/behind note, such as `[ahead 2]`, or empty.
    pub status: String,
    /// The porcelain lines of tracked files that changed.
    pub modified_files: Vec<String>,
}

/// A repository's branch state as character sequences.
#[verifier::ext_equal]
pub struct StatusView {
    pub current_branch: Seq<char>,
    pub tracking_branch: Seq<char>,
    pub status: Seq<char>,
    pub modified_files: Seq<Seq<char>>,
}

impl View for RepoStatus {
    type V = StatusView;

    open spec fn view(&self) -> StatusView {
        StatusView {
            current_branch: self.current_branch@,
            tracking_branch: self.tracking_branch@,
            status: self.status@,
            modified_files: texts(self.modified_files@),
        }
    }
}

/// The state reported when the output says nothing usable.
pub open spec fn empty_status() -> StatusView {
    StatusView {
        current_branch: Seq::empty(),
        tracking_branch: Seq::empty(),
        status: Seq::empty(),
        modified_files: Seq::empty(),
    }
}

/// The non-empty lines of a command's output.
pub open spec fn output_lines(b: Seq<u8>) -> Seq<Seq<u8>> {
    non_empty(split(b, 0x0a))
}

/// The lines after the branch line that are not untracked files (`??`).
pub open spec fn changed_lines(lines: Seq<Seq<u8>>) -> Seq<Seq<u8>>
    decreases lines.len(),
{
    if lines.len() <= 1 {
        seq![]
    } else if has_prefix(lines.last(), utf8("??"@)) {
        changed_lines(lines.drop_last())
    } else {
        changed_lines(lines.drop_last()).push(lines.last())
    }
}

/// The index just before the `[` at `bracket`, or 0.
pub open spec fn before_bracket(bracket: int) -> int {
    if bracket >= 1 {
        bracket - 1
    } else {
        0
    }
}

/// The branch line `## current...tracking [note]` read byte for byte: the
/// current branch runs from byte 3 to the first `...`; the tracking branch
/// from there to the byte before the last `[` (or to the end when there is no
/// `[`); the note from the last `[` to the end. Without `...` the rest of the
/// line is the current branch and there is no tracking branch.
pub open spec fn branch_fields(first: Seq<u8>) -> (Seq<char>, Seq<char>, Seq<char>) {
    let n = first.len() as int;
    match first_dots(first, 0) {
        Some(pos) => {
            let start = pos + 3;
            match last_index(first, 0x5b, n) {
                Some(bracket) => (
                    decode_utf8(first.subrange(3, pos)),
                    if start <= before_bracket(bracket) {
                        decode_utf8(first.subrange(start, before_bracket(bracket)))
                    } else {
                        Seq::empty()
                    },
                    decode_utf8(first.subrange(bracket, n)),
                ),
                None => (
                    decode_utf8(first.subrange(3, pos)),
                    decode_utf8(first.subrange(start, n)),
                    Seq::empty(),
                ),
            }
        },
        None => (decode_utf8(first.subrange(3, n)), "no tracking branch"@, Seq::empty()),
    }
}

/// What `git status --porcelain -b` output `b` says of the repository.
pub open spec fn parsed_status(b: Seq<u8>) -> StatusView {
    let lines = output_lines(b);
    if lines.len() == 0 || lines[0].len() < 3 {
        empty_status()
    } else {
        let f = branch_fields(lines[0]);
        StatusView {
            current_branch: f.0,
            tracking_branch: f.1,
            status: f.2,
            modified_files: decoded(changed_lines(lines)),
        }
    }
}

/// The lines of an output that hold something, in order.
pub open spec fn filled_lines(b: Seq<u8>) -> Seq<Seq<u8>> {
    split(b, 0x0a).filter(|l: Seq<u8>| l.len() > 0)
}

/// A porcelain line that reports an untracked file: it begins with `??`.
pub open spec fn reports_untracked(l: Seq<u8>) -> bool {
    l.len() >= 2 && l[0] == 0x3fu8 && l[1] == 0x3fu8
}

proof fn lemma_non_empty_is_filter(ps: Seq<Seq<u8>>)
    ensures
        non_empty(ps) == ps.filter(|l: Seq<u8>| l.len() > 0),
    decreases ps.len(),
{
    reveal(Seq::filter);
    if ps.len() > 0 {
        lemma_non_empty_is_filter(ps.drop_last());
    }
}

proof fn lemma_untracked_prefix(l: Seq<u8>)
    ensures
        has_prefix(l, utf8("??"@)) == reports_untracked(l),
{
    reveal_strlit("??");
    let q = "??"@;
    assert(is_ascii_chars(q));
    is_ascii_chars_encode_utf8(q);
    assert(utf8(q) =~= seq![0x3fu8, 0x3fu8]);
    if reports_untracked(l) {
        assert(l.subrange(0, 2) =~= seq![0x3fu8, 0x3fu8]);
    }
    if has_prefix(l, utf8(q)) {
        assert(l.subrange(0, 2)[0] == l[0]);
        assert(l.subrange(0, 2)[1] == l[1]);
    }
}

proof fn lemma_changed_lines_filter(lines: Seq<Seq<u8>>)
    requires
        lines.len() >= 1,
    ensures
        changed_lines(lines) == lines.skip(1).filter(|l: Seq<u8>| !reports_untracked(l)),
    decreases lines.len(),
{
    reveal(Seq::filter);
    let f = |l: Seq<u8>| !reports_untracked(l);
    if lines.len() == 1 {
        assert(lines.skip(1) =~= Seq::<Seq<u8>>::empty());
    } else {
        lemma_changed_lines_filter(lines.drop_last());
        lemma_untracked_prefix(lines.last());
        assert(lines.skip(1).drop_last() =~= lines.drop_last().skip(1));
        assert(lines.skip(1).last() == lines.last());
        assert(lines.skip(1).len() > 0);
        assert(lines.skip(1).filter(f) == (if f(lines.skip(1).last()) {
            lines.skip(1).drop_last().filter(f).push(lines.skip(1).last())
        } else {
            lines.skip(1).drop_last().filter(f)
        }));
    }
}

/// Every line after the branch line is a modified file unless it reports an
/// untracked file (it begins with `??`): the modified files are exactly
/// those lines, in order, whatever status code they carry.
pub proof fn law_modified_files_are_the_tracked_lines(b: Seq<u8>)
    requires
        filled_lines(b).len() >= 1,
        filled_lines(b)[0].len() >= 3,
    ensures
        parsed_status(b).modified_files == filled_lines(b).skip(1).filter(
            |l: Seq<u8>| !reports_untracked(l),
        ).map_values(|l: Seq<u8>| decode_utf8(l)),
        parsed_status(b).modified_files.len() == filled_lines(b).skip(1).filter(
            |l: Seq<u8>| !reports_untracked(l),
        ).len(),
{
    lemma_non_empty_is_filter(split(b, 0x0a));
    assert(output_lines(b) == filled_lines(b));
    lemma_changed_lines_filter(filled_lines(b));
}

proof fn lemma_first_dots_at(b: Seq<u8>, from: int, p: int)
    requires
        0 <= from <= p,
        p + 3 <= b.len(),
        b[p] == 0x2eu8 && b[p + 1] == 0x2eu8 && b[p + 2] == 0x2eu8,
        forall|i: int| from <= i < p ==> b[i] != 0x2eu8,
    ensures
        first_dots(b, from) == Some(p),
    decreases p - from,
{
    if from < p {
        lemma_first_dots_at(b, from + 1, p);
    }
}

proof fn lemma_last_index_at(b: Seq<u8>, x: u8, end: int, k: int)
    requires
        0 <= k < end <= b.len(),
        b[k] == x,
        forall|i: int| k < i < end ==> b[i] != x,
    ensures
        last_index(b, x, end) == Some(k),
    decreases end - k,
{
    if end - 1 > k {
        lemma_last_index_at(b, x, end - 1, k);
    }
}

proof fn lemma_last_index_none(b: Seq<u8>, x: u8, end: int)
    requires
        0 <= end <= b.len(),
        forall|i: int| 0 <= i < end ==> b[i] != x,
    ensures
        last_index(b, x, end) is None,
    decreases end,
{
    if end > 0 {
        lemma_last_index_none(b, x, end - 1);
    }
}

/// The bytes of the ASCII pieces of a branch line.
proof fn lemma_branch_line_pieces()
    ensures
        utf8("## "@) == seq![0x23u8, 0x23u8, 0x20u8],
        utf8("..."@) == seq![0x2eu8, 0x2eu8, 0x2eu8],
        utf8(" "@) == seq![0x20u8],
{
    reveal_strlit("## ");
    reveal_strlit("...");
    reveal_strlit(" ");
    assert(is_ascii_chars("## "@));
    assert(is_ascii_chars("..."@));
    assert(is_ascii_chars(" "@));
    is_ascii_chars_encode_utf8("## "@);
    is_ascii_chars_encode_utf8("..."@);
    is_ascii_chars_encode_utf8(" "@);
    assert(utf8("## "@) =~= seq![0x23u8, 0x23u8, 0x20u8]);
    assert(utf8("..."@) =~= seq![0x2eu8, 0x2eu8, 0x2eu8]);
    assert(utf8(" "@) =~= seq![0x20u8]);
}

/// A branch line `## <current>...<tracking> [<note>` is read back as its
/// parts: the current branch (which holds no `.`), the tracking branch
/// (which holds no `[`) and the note from its `[` to the end of the line
/// (which holds no other `[`).
pub proof fn law_branch_line_read_back(b: Seq<u8>, current: Seq<u8>, tracking: Seq<u8>, note: Seq<u8>)
    requires
        filled_lines(b).len() >= 1,
        filled_lines(b)[0] == utf8("## "@) + current + utf8("..."@) + tracking + utf8(" "@) + note,
        forall|i: int| 0 <= i < current.len() ==> current[i] != 0x2eu8,
        forall|i: int| 0 <= i < tracking.len() ==> tracking[i] != 0x5bu8,
        note.len() >= 1,
        note[0] == 0x5bu8,
        forall|i: int| 1 <= i < note.len() ==> note[i] != 0x5bu8,
    ensures
        parsed_status(b).current_branch == decode_utf8(current),
        parsed_status(b).tracking_branch == decode_utf8(tracking),
        parsed_status(b).status == decode_utf8(note),
{
    lemma_non_empty_is_filter(split(b, 0x0a));
    lemma_branch_line_pieces();
    let line = filled_lines(b)[0];
    let c = current.len() as int;
    let t = tracking.len() as int;
    let n = line.len() as int;
    let pos = 3 + c;
    let bracket = pos + 3 + t + 1;
    assert(n == bracket + note.len());
    assert forall|i: int| 0 <= i < pos implies line[i] != 0x2eu8 by {
        if i >= 3 {
            assert(line[i] == current[i - 3]);
        }
    }
    lemma_first_dots_at(line, 0, pos);
    assert(line[bracket] == 0x5bu8);
    assert forall|i: int| bracket < i < n implies line[i] != 0x5bu8 by {
        assert(line[i] == note[i - bracket]);
    }
    lemma_last_index_at(line, 0x5b, n, bracket);
    assert(line.subrange(3, pos) =~= current);
    assert(line.subrange(pos + 3, bracket - 1) =~= tracking);
    assert(line.subrange(bracket, n) =~= note);
}

/// A branch line `## <current>...<tracking>` without a note is read back as
/// its parts, with an empty note, where neither branch holds a `[` and the
/// current branch holds no `.`.
pub proof fn law_branch_line_without_note_read_back(b: Seq<u8>, current: Seq<u8>, tracking: Seq<u8>)
    requires
        filled_lines(b).len() >= 1,
        filled_lines(b)[0] == utf8("## "@) + current + utf8("..."@) + tracking,
        forall|i: int| 0 <= i < current.len() ==> current[i] != 0x2eu8 && current[i] != 0x5bu8,
        forall|i: int| 0 <= i < tracking.len() ==> tracking[i] != 0x5bu8,
    ensures
        parsed_status(b).current_branch == decode_utf8(current),
        parsed_status(b).tracking_branch == decode_utf8(tracking),
        parsed_status(b).status == Seq::<char>::empty(),
{
    lemma_non_empty_is_filter(split(b, 0x0a));
    lemma_branch_line_pieces();
    let line = filled_lines(b)[0];
    let c = current.len() as int;
    let n = line.len() as int;
    let pos = 3 + c;
    assert forall|i: int| 0 <= i < pos implies line[i] != 0x2eu8 by {
        if i >= 3 {
            assert(line[i] == current[i - 3]);
        }
    }
    lemma_first_dots_at(line, 0, pos);
    assert forall|i: int| 0 <= i < n implies line[i] != 0x5bu8 by {
        if 3 <= i < pos {
            assert(line[i] == current[i - 3]);
        } else if i >= pos + 3 {
            assert(line[i] == tracking[i - pos - 3]);
        }
    }
    lemma_last_index_none(line, 0x5b, n);
    assert(line.subrange(3, pos) =~= current);
    assert(line.subrange(pos + 3, n) =~= tracking);
}

proof fn lemma_first_dots_none(b: Seq<u8>, from: int)
    requires
        0 <= from,
        forall|i: int| from <= i < b.len() ==> b[i] != 0x2eu8,
    ensures
        first_dots(b, from) is None,
    decreases b.len() - from,
{
    if from + 3 <= b.len() {
        lemma_first_dots_none(b, from + 1);
    }
}

/// A branch line `## <current>` without `...` names no tracking branch: the
/// current branch is the rest of the line (here one that holds no `.`), the
/// tracking branch reads `no tracking branch` and the note is empty.
pub proof fn law_branch_line_untracked_read_back(b: Seq<u8>, current: Seq<u8>)
    requires
        filled_lines(b).len() >= 1,
        filled_lines(b)[0] == utf8("## "@) + current,
        forall|i: int| 0 <= i < current.len() ==> current[i] != 0x2eu8,
    ensures
        parsed_status(b).current_branch == decode_utf8(current),
        parsed_status(b).tracking_branch == "no tracking branch"@,
        parsed_status(b).status == Seq::<char>::empty(),
{
    lemma_non_empty_is_filter(split(b, 0x0a));
    lemma_branch_line_pieces();
    let line = filled_lines(b)[0];
    assert forall|i: int| 0 <= i < line.len() implies line[i] != 0x2eu8 by {
        if i >= 3 {
            assert(line[i] == current[i - 3]);
        }
    }
    lemma_first_dots_none(line, 0);
    assert(line.subrange(3, line.len() as int) =~= current);
}

/// The byte offsets at which the branch line is cut fall on character
/// boundaries, and the first `...` does not start before byte 3.
pub open spec fn branch_line_cuttable(first: Seq<u8>) -> bool {
    first.len() >= 3 ==> {
        &&& is_char_boundary(first, 3)
        &&& match first_dots(first, 0) {
            Some(pos) => {
                &&& pos >= 3
                &&& match last_index(first, 0x5b, first.len() as int) {
                    Some(bracket) => pos + 3 <= before_bracket(bracket) ==> is_char_boundary(
                        first,
                        before_bracket(bracket),
                    ),
                    None => true,
                }
            },
            None => true,
        }
    }
}

/// The output can be read without cutting a character in two.
pub open spec fn status_readable(b: Seq<u8>) -> bool {
    output_lines(b).len() > 0 ==> branch_line_cuttable(output_lines(b)[0])
}

/// The state of a repository with no changes and no branch line.
pub fn empty_repo_status() -> (r: RepoStatus)
    ensures
        r@ == empty_status(),
{
    let r = RepoStatus {
        current_branch: String::new(),
        tracking_branch: String::new(),
        status: String::new(),
        modified_files: Vec::new(),
    };
    assert(r@.modified_files =~= Seq::<Seq<char>>::empty());
    r
}

/// The three fields of a branch line of at least three bytes.
fn read_branch_line(first: &str) -> (r: (String, String, String))
    requires
        first.spec_bytes().len() >= 3,
        branch_line_cuttable(first.spec_bytes()),
    ensures
        (r.0@, r.1@, r.2@) == branch_fields(first.spec_bytes()),
{
    let fb = first.as_bytes();
    let n = fb.len();
    match find_dots(fb) {
        Some(pos) => {
            proof {
                lemma_ascii_boundaries(fb@, pos as int);
                lemma_ascii_boundaries(fb@, pos + 2);
            }
            let current = slice(first, 3, pos).to_owned();
            let start = pos + 3;
            match rfind_byte(fb, 0x5b) {
                Some(bracket) => {
                    proof {
                        lemma_ascii_boundaries(fb@, bracket as int);
                    }
                    let end = bracket.saturating_sub(1);
                    let tracking = if start <= end {
                        slice(first, start, end).to_owned()
                    } else {
                        String::new()
                    };
                    let note = slice(first, bracket, n).to_owned();
                    (current, tracking, note)
                },
                None => (current, slice(first, start, n).to_owned(), String::new()),
            }
        },
        None => (slice(first, 3, n).to_owned(), "no tracking branch".to_owned(), String::new()),
    }
}

/// Reads the output of `git status --porcelain -b`: the branch line gives the
/// current and tracking branch and the ahead/behind note, and every further
/// line that is not an untracked file (`??`) is a modified file.
pub fn parse_status(output: &str) -> (r: RepoStatus)
    requires
        status_readable(output.spec_bytes()),
    ensures
        r@ == parsed_status(output.spec_bytes()),
{
    let pieces = split_str(output, 0x0a);
    let lines = keep_non_empty(&pieces);
    let ghost ls = lines@.map_values(|x: &str| x.spec_bytes());
    assert(ls == output_lines(output.spec_bytes()));
    if lines.len() == 0 {
        return empty_repo_status();
    }
    let first = lines[0];
    assert(first.spec_bytes() == ls[0]);
    if first.as_bytes().len() < 3 {
        return empty_repo_status();
    }
    let (current, tracking, note) = read_branch_line(first);
    let mut modified: Vec<String> = Vec::new();
    let mut i: usize = 1;
    while i < lines.len()
        invariant
            1 <= i <= lines@.len(),
            ls == lines@.map_values(|x: &str| x.spec_bytes()),
            texts(modified@) == decoded(changed_lines(ls.take(i as int))),
        decreases lines@.len() - i,
    {
        let line = lines[i];
        assert(ls.take(i + 1).drop_last() =~= ls.take(i as int));
        assert(ls.take(i + 1).last() == line.spec_bytes());
        if !starts_with(line.as_bytes(), "??".as_bytes()) {
            let ghost before = modified@;
            modified.push(line.to_owned());
            assert(changed_lines(ls.take(i + 1)) == changed_lines(ls.take(i as int)).push(
                line.spec_bytes(),
            ));
            assert(texts(modified@) =~= texts(before).push(line@));
            assert(decoded(changed_lines(ls.take(i + 1))) =~= decoded(
                changed_lines(ls.take(i as int)),
            ).push(decode_utf8(line.spec_bytes())));
        } else {
            assert(changed_lines(ls.take(i + 1)) == changed_lines(ls.take(i as int)));
        }
        i += 1;
    }
    assert(ls.take(lines@.len() as int) =~= ls);
    RepoStatus { current_branch: current, tracking_branch: tracking, status: note, modified_files: modified }
}

/// Whether `parse_status` can read the output: the offsets at which the
/// branch line is cut fall on character boundaries.
pub fn status_is_readable(output: &str) -> (r: bool)
    ensures
        r == status_readable(output.spec_bytes()),
{
    let pieces = split_str(output, 0x0a);
    let lines = keep_non_empty(&pieces);
    let ghost ls = lines@.map_values(|x: &str| x.spec_bytes());
    assert(ls == output_lines(output.spec_bytes()));
    if lines.len() == 0 {
        return true;
    }
    let first = lines[0];
    assert(first.spec_bytes() == ls[0]);
    let fb = first.as_bytes();
    if fb.len() < 3 {
        return true;
    }
    if !first.is_char_boundary(3) {
        return false;
    }
    match find_dots(fb) {
        None => true,
        Some(pos) => {
            if pos < 3 {
                return false;
            }
            match rfind_byte(fb, 0x5b) {
                Some(bracket) => {
                    let end = bracket.saturating_sub(1);
                    !(pos + 3 <= end) || first.is_char_boundary(end)
                },
                None => true,
            }
        },
    }
}

/// The text between the first `(` and the first `)` after it.
pub open spec fn decoration(b: Seq<u8>) -> Option<Seq<u8>> {
    match first_index(b, 0x28, 0) {
        None => None,
        Some(open) => match first_index(b, 0x29, open) {
            None => None,
            Some(close) => Some(b.subrange(open + 1, close)),
        },
    }
}

/// A label without its one leading space.
pub open spec fn unspaced(p: Seq<u8>) -> Seq<u8> {
    if has_prefix(p, utf8(" "@)) {
        p.subrange(utf8(" "@).len() as int, p.len() as int)
    } else {
        p
    }
}

/// The tag that a label `tag: <name>` names.
pub open spec fn tag_name(p: Seq<u8>) -> Option<Seq<u8>> {
    let q = unspaced(p);
    if has_prefix(q, utf8("tag: "@)) {
        Some(q.subrange(utf8("tag: "@).len() as int, q.len() as int))
    } else {
        None
    }
}

/// The branch that a label `origin/<name>` names, unless it is `master`,
/// `develop` or `HEAD`.
pub open spec fn remote_branch_name(p: Seq<u8>) -> Option<Seq<u8>> {
    let q = unspaced(p);
    if has_prefix(q, utf8("tag: "@)) || !has_prefix(q, utf8("origin/"@)) {
        None
    } else {
        let rb = q.subrange(utf8("origin/"@).len() as int, q.len() as int);
        if rb == utf8("master"@) || rb == utf8("develop"@) || rb == utf8("HEAD"@) {
            None
        } else {
            Some(rb)
        }
    }
}

/// The names that `f` picks out of the labels, in order.
pub open spec fn pick(ps: Seq<Seq<u8>>, f: spec_fn(Seq<u8>) -> Option<Seq<u8>>) -> Seq<Seq<u8>>
    decreases ps.len(),
{
    if ps.len() == 0 {
        seq![]
    } else {
        match f(ps.last()) {
            Some(x) => pick(ps.drop_last(), f).push(x),
            None => pick(ps.drop_last(), f),
        }
    }
}

/// The comma-separated labels of the decoration.
pub open spec fn labels(b: Seq<u8>) -> Seq<Seq<u8>> {
    match decoration(b) {
        Some(inner) => split(inner, 0x2c),
        None => seq![],
    }
}

/// The tags that the decoration of a `git log --decorate=short -1` output names.
pub open spec fn head_tags(b: Seq<u8>) -> Seq<Seq<char>> {
    decoded(pick(labels(b), |p: Seq<u8>| tag_name(p)))
}

/// The remote branches that the decoration names.
pub open spec fn head_remote_branches(b: Seq<u8>) -> Seq<Seq<char>> {
    decoded(pick(labels(b), |p: Seq<u8>| remote_branch_name(p)))
}

/// A label with its one leading space, if any, taken off.
pub open spec fn label_body(p: Seq<u8>) -> Seq<u8> {
    if p.len() > 0 && p[0] == 0x20u8 {
        p.skip(1)
    } else {
        p
    }
}

/// A label that reads `origin/<b>` (after one leading space) with `b` none
/// of `master`, `develop` and `HEAD`.
pub open spec fn names_kept_remote(p: Seq<u8>) -> bool {
    let q = label_body(p);
    &&& q.len() >= 7
    &&& q.take(7) == utf8("origin/"@)
    &&& q.skip(7) != utf8("master"@)
    &&& q.skip(7) != utf8("develop"@)
    &&& q.skip(7) != utf8("HEAD"@)
}

/// What `f` picks is what `keep` keeps, taken through `g`.
proof fn lemma_pick_is_filter_map(
    ps: Seq<Seq<u8>>,
    f: spec_fn(Seq<u8>) -> Option<Seq<u8>>,
    keep: spec_fn(Seq<u8>) -> bool,
    g: spec_fn(Seq<u8>) -> Seq<u8>,
)
    requires
        forall|p: Seq<u8>| #[trigger] f(p) == (if keep(p) { Some(g(p)) } else { None }),
    ensures
        pick(ps, f) == ps.filter(keep).map_values(g),
    decreases ps.len(),
{
    reveal(Seq::filter);
    if ps.len() > 0 {
        lemma_pick_is_filter_map(ps.drop_last(), f, keep, g);
        assert(f(ps.last()) == (if keep(ps.last()) { Some(g(ps.last())) } else { None }));
        if keep(ps.last()) {
            assert(ps.filter(keep).map_values(g) =~= ps.drop_last().filter(keep).map_values(g).push(g(ps.last())));
        }
    } else {
        assert(ps.filter(keep).map_values(g) =~= Seq::<Seq<u8>>::empty());
    }
}

proof fn lemma_remote_branch_name(p: Seq<u8>)
    ensures
        remote_branch_name(p) == (if names_kept_remote(p) { Some(label_body(p).skip(7)) } else { None }),
{
    reveal_strlit(" ");
    reveal_strlit("origin/");
    reveal_strlit("tag: ");
    assert(is_ascii_chars(" "@));
    assert(is_ascii_chars("origin/"@));
    assert(is_ascii_chars("tag: "@));
    is_ascii_chars_encode_utf8(" "@);
    is_ascii_chars_encode_utf8("origin/"@);
    is_ascii_chars_encode_utf8("tag: "@);
    let sp = utf8(" "@);
    assert(sp =~= seq![0x20u8]);
    if p.len() > 0 && p[0] == 0x20u8 {
        assert(p.subrange(0, 1) =~= sp);
    }
    if has_prefix(p, sp) {
        assert(p.subrange(0, 1)[0] == p[0]);
    }
    assert(unspaced(p) =~= label_body(p));
    let q = label_body(p);
    let o = utf8("origin/"@);
    assert(o.len() == 7);
    assert(o[0] == 0x6fu8);
    assert(utf8("tag: "@)[0] == 0x74u8);
    if q.len() >= 7 {
        assert(q.take(7) =~= q.subrange(0, 7));
        assert(q.skip(7) =~= q.subrange(7, q.len() as int));
        if has_prefix(q, o) {
            assert(!has_prefix(q, utf8("tag: "@))) by {
                assert(q.subrange(0, 7)[0] == q[0]);
                if has_prefix(q, utf8("tag: "@)) {
                    assert(q.subrange(0, 5)[0] == q[0]);
                }
            }
        }
    }
}

/// Every label of the decoration that reads `origin/<b>` (after one leading
/// space), `b` none of `master`, `develop` and `HEAD`, gives its `b` to the
/// remote branches, in order, and no other label gives one.
pub proof fn law_remote_branches_are_the_origin_labels(b: Seq<u8>)
    ensures
        head_remote_branches(b) == labels(b).filter(|p: Seq<u8>| names_kept_remote(p)).map_values(
            |p: Seq<u8>| decode_utf8(label_body(p).skip(7)),
        ),
        head_remote_branches(b).len() == labels(b).filter(|p: Seq<u8>| names_kept_remote(p)).len(),
{
    let f = |p: Seq<u8>| remote_branch_name(p);
    let keep = |p: Seq<u8>| names_kept_remote(p);
    let g = |p: Seq<u8>| label_body(p).skip(7);
    assert forall|p: Seq<u8>| #[trigger] f(p) == (if keep(p) { Some(g(p)) } else { None }) by {
        lemma_remote_branch_name(p);
    }
    lemma_pick_is_filter_map(labels(b), f, keep, g);
    let kept = labels(b).filter(keep);
    assert(decoded(kept.map_values(g)) =~= kept.map_values(|p: Seq<u8>| decode_utf8(label_body(p).skip(7))));
}

/// A label that reads `tag: <t>` (after one leading space).
pub open spec fn names_tag(p: Seq<u8>) -> bool {
    let q = label_body(p);
    q.len() >= 5 && q.take(5) == utf8("tag: "@)
}

proof fn lemma_tag_name(p: Seq<u8>)
    ensures
        tag_name(p) == (if names_tag(p) { Some(label_body(p).skip(5)) } else { None }),
{
    reveal_strlit(" ");
    reveal_strlit("tag: ");
    assert(is_ascii_chars(" "@));
    assert(is_ascii_chars("tag: "@));
    is_ascii_chars_encode_utf8(" "@);
    is_ascii_chars_encode_utf8("tag: "@);
    let sp = utf8(" "@);
    assert(sp =~= seq![0x20u8]);
    if p.len() > 0 && p[0] == 0x20u8 {
        assert(p.subrange(0, 1) =~= sp);
    }
    if has_prefix(p, sp) {
        assert(p.subrange(0, 1)[0] == p[0]);
    }
    assert(unspaced(p) =~= label_body(p));
    let q = label_body(p);
    assert(utf8("tag: "@).len() == 5);
    if q.len() >= 5 {
        assert(q.take(5) =~= q.subrange(0, 5));
        assert(q.skip(5) =~= q.subrange(5, q.len() as int));
    }
}

/// Every label of the decoration that reads `tag: <t>` (after one leading
/// space) gives its `t` to the tags, in order, and no other label gives one.
pub proof fn law_tags_are_the_tag_labels(b: Seq<u8>)
    ensures
        head_tags(b) == labels(b).filter(|p: Seq<u8>| names_tag(p)).map_values(
            |p: Seq<u8>| decode_utf8(label_body(p).skip(5)),
        ),
        head_tags(b).len() == labels(b).filter(|p: Seq<u8>| names_tag(p)).len(),
{
    let f = |p: Seq<u8>| tag_name(p);
    let keep = |p: Seq<u8>| names_tag(p);
    let g = |p: Seq<u8>| label_body(p).skip(5);
    assert forall|p: Seq<u8>| #[trigger] f(p) == (if keep(p) { Some(g(p)) } else { None }) by {
        lemma_tag_name(p);
    }
    lemma_pick_is_filter_map(labels(b), f, keep, g);
    let kept = labels(b).filter(keep);
    assert(decoded(kept.map_values(g)) =~= kept.map_values(|p: Seq<u8>| decode_utf8(label_body(p).skip(5))));
}

/// Whether the byte text of `s` is the literal `lit`.
fn is_literal(s: &str, lit: &str) -> (r: bool)
    ensures
        r == (s.spec_bytes() == utf8(lit@)),
{
    bytes_eq(s.as_bytes(), lit.as_bytes())
}

/// The tags and remote branches named in the decoration `(HEAD -> x, tag: v1,
/// origin/y)` of the first line of `git log --decorate=short -1`.
pub fn read_decoration(output: &str) -> (r: (Vec<String>, Vec<String>))
    ensures
        texts(r.0@) == head_tags(output.spec_bytes()),
        texts(r.1@) == head_remote_branches(output.spec_bytes()),
{
    let b = output.as_bytes();
    let mut tags: Vec<String> = Vec::new();
    let mut remotes: Vec<String> = Vec::new();
    assert(texts(tags@) =~= Seq::<Seq<char>>::empty());
    assert(texts(remotes@) =~= Seq::<Seq<char>>::empty());
    let open = match find_byte(b, 0x28, 0) {
        Some(p) => p,
        None => return (tags, remotes),
    };
    let close = match find_byte(b, 0x29, open) {
        Some(p) => p,
        None => return (tags, remotes),
    };
    proof {
        lemma_ascii_boundaries(b@, open as int);
        lemma_ascii_boundaries(b@, close as int);
    }
    let inner = slice(output, open + 1, close);
    let items = split_str(inner, 0x2c);
    let ghost ls = items@.map_values(|x: &str| x.spec_bytes());
    assert(ls == labels(output.spec_bytes()));
    proof {
        reveal_strlit(" ");
        reveal_strlit("tag: ");
        reveal_strlit("origin/");
    }
    let mut i: usize = 0;
    while i < items.len()
        invariant
            i <= items@.len(),
            ls == items@.map_values(|x: &str| x.spec_bytes()),
            is_ascii(" "),
            is_ascii("tag: "),
            is_ascii("origin/"),
            texts(tags@) == decoded(pick(ls.take(i as int), |p: Seq<u8>| tag_name(p))),
            texts(remotes@) == decoded(pick(ls.take(i as int), |p: Seq<u8>| remote_branch_name(p))),
        decreases items@.len() - i,
    {
        let raw = items[i];
        assert(ls.take(i + 1).drop_last() =~= ls.take(i as int));
        assert(ls.take(i + 1).last() == raw.spec_bytes());
        let branch = match strip_prefix(raw, " ") {
            Some(t) => t,
            None => raw,
        };
        assert(branch.spec_bytes() == unspaced(raw.spec_bytes()));
        let ghost tags_before = tags@;
        let ghost remotes_before = remotes@;
        if let Some(tag) = strip_prefix(branch, "tag: ") {
            tags.push(tag.to_owned());
            assert(texts(tags@) =~= texts(tags_before).push(tag@));
        } else if let Some(rb) = strip_prefix(branch, "origin/") {
            if !is_literal(rb, "master") && !is_literal(rb, "develop") && !is_literal(rb, "HEAD") {
                remotes.push(rb.to_owned());
                assert(texts(remotes@) =~= texts(remotes_before).push(rb@));
            }
        }
        assert(decoded(pick(ls.take(i + 1), |p: Seq<u8>| tag_name(p))) =~= texts(tags@));
        assert(decoded(pick(ls.take(i + 1), |p: Seq<u8>| remote_branch_name(p))) =~= texts(
            remotes@,
        ));
        i += 1;
    }
    assert(ls.take(items@.len() as int) =~= ls);
    (tags, remotes)
}

/// The tags and remote branches at HEAD, read from the result of
/// `git log --decorate=short -1`; none when the command failed.
pub fn head_remote_state(log: &Result<String, String>) -> (r: (Vec<String>, Vec<String>))
    ensures
        match log {
            Ok(out) => texts(r.0@) == head_tags(utf8(out@)) && texts(r.1@) == head_remote_branches(
                utf8(out@),
            ),
            Err(_) => r.0@.len() == 0 && r.1@.len() == 0,
        },
{
    match log {
        Ok(out) => read_decoration(out.as_str()),
        Err(_) => (Vec::new(), Vec::new()),
    }
}

} // verus!
