//! The work in one repository, as a sequence of requests: the library
//! decides what to run next from what the last request gave back, and the
//! caller runs it.

use vstd::prelude::*;
use vstd::utf8::*;
use vstd::string::*;
use crate::config::{as_map, opt_text, Props};
use crate::github::{created_pr_url, pr_url_of_reply};
use crate::order::Named;
use crate::plan::{Action, ActionView, alias_pairs, words_of};
use crate::status::{
    RepoStatus, StatusView, head_remote_branches, head_tags, head_remote_state, parse_status,
    parsed_status, status_readable,
};
use crate::text::{blank, is_blank, split, split_str, texts, utf8};

verus! {

broadcast use {encode_utf8_decode_utf8};

/// What one repository reported.
pub struct ProjectInfo {
    pub name: String,
    pub dir: String,
    pub repo_status: RepoStatus,
    /// What the command printed.
    pub cmd_output: String,
    /// Why the command failed, when it did.
    pub cmd_error: Option<String>,
    pub tags: Vec<String>,
    pub remote_branches: Vec<String>,
}

/// A repository's report as plain values.
#[verifier::ext_equal]
pub struct InfoView {
    pub name: Seq<char>,
    pub dir: Seq<char>,
    pub repo_status: StatusView,
    pub cmd_output: Seq<char>,
    pub cmd_error: Option<Seq<char>>,
    pub tags: Seq<Seq<char>>,
    pub remote_branches: Seq<Seq<char>>,
}

impl View for ProjectInfo {
    type V = InfoView;

    open spec fn view(&self) -> InfoView {
        InfoView {
            name: self.name@,
            dir: self.dir@,
            repo_status: self.repo_status@,
            cmd_output: self.cmd_output@,
            cmd_error: opt_text(self.cmd_error),
            tags: texts(self.tags@),
            remote_branches: texts(self.remote_branches@),
        }
    }
}

impl Named for ProjectInfo {
    open spec fn name_bytes(&self) -> Seq<u8> {
        utf8(self.name@)
    }

    fn name_str(&self) -> (r: &str) {
        self.name.as_str()
    }
}

/// How far the work in a repository has come.
pub enum Stage {
    /// Nothing has run yet.
    Start,
    /// The command runs; its result comes back.
    AwaitCommand,
    /// The command gave `output` or `error`; the status text comes back.
    AwaitStatus { output: String, error: Option<String> },
    /// The status is known; the result of the HEAD log comes back.
    AwaitHead { output: String, error: Option<String>, status: RepoStatus },
    /// The log search for a pull request runs; its result comes back.
    PrAwaitLog,
    /// The log search matched or not; the status text comes back.
    PrAwaitStatus { matched: bool },
    /// The pull request was announced; it is to be merged into `base`.
    PrAnnounced { base: String },
    /// The branch is being pushed; the push's result comes back.
    PrAwaitPush { base: String },
    /// The pull request is being opened; its URL or the failure comes back.
    PrAwaitOpen,
    /// The pull request at `url` was opened and reported.
    PrOpened { url: String },
    /// Opening the pull request failed and that was reported.
    PrFailed,
    /// The work is over.
    Done,
}

/// What to do next in the repository.
pub enum Request {
    /// Run `git` with these arguments; give back its output or failure.
    Git(Vec<String>),
    /// Run `git log --oneline | grep` with these grep arguments; give back
    /// the output or the failure.
    LogGrep(Vec<String>),
    /// Run `git status --porcelain -b`; give back its output (a failure, or
    /// an output that `status_is_readable` refuses, is fatal).
    Status,
    /// Run `git log --decorate=short -1`; give back its output or failure.
    HeadLog,
    /// Print this line on standard output.
    Say(String),
    /// Run `git push origin <refspec>`; give back `Ok` or the failure.
    Push(String),
    /// POST a pull request to `url` with these `Authorization`, `Accept` and
    /// `User-Agent` headers and a JSON body with these `title`, `head`,
    /// `base`, `body` and `maintainer_can_modify`; give back the body of the
    /// reply or the failure.
    OpenPr {
        url: String,
        authorization: String,
        accept: String,
        user_agent: String,
        title: String,
        head: String,
        base: String,
        body: String,
        maintainer_can_modify: bool,
    },
    /// Print this line on standard error.
    Warn(String),
    /// The work is over: the report, and the URL of an opened pull request.
    Finish(Option<ProjectInfo>, Option<String>),
}

/// A stage as plain values.
#[verifier::ext_equal]
pub enum StageView {
    Start,
    AwaitCommand,
    AwaitStatus { output: Seq<char>, error: Option<Seq<char>> },
    AwaitHead { output: Seq<char>, error: Option<Seq<char>>, status: StatusView },
    PrAwaitLog,
    PrAwaitStatus { matched: bool },
    PrAnnounced { base: Seq<char> },
    PrAwaitPush { base: Seq<char> },
    PrAwaitOpen,
    PrOpened { url: Seq<char> },
    PrFailed,
    Done,
}

impl View for Stage {
    type V = StageView;

    open spec fn view(&self) -> StageView {
        match self {
            Stage::Start => StageView::Start,
            Stage::AwaitCommand => StageView::AwaitCommand,
            Stage::AwaitStatus { output, error } => StageView::AwaitStatus { output: output@, error: opt_text(*error) },
            Stage::AwaitHead { output, error, status } => StageView::AwaitHead {
                output: output@,
                error: opt_text(*error),
                status: status@,
            },
            Stage::PrAwaitLog => StageView::PrAwaitLog,
            Stage::PrAwaitStatus { matched } => StageView::PrAwaitStatus { matched: *matched },
            Stage::PrAnnounced { base } => StageView::PrAnnounced { base: base@ },
            Stage::PrAwaitPush { base } => StageView::PrAwaitPush { base: base@ },
            Stage::PrAwaitOpen => StageView::PrAwaitOpen,
            Stage::PrOpened { url } => StageView::PrOpened { url: url@ },
            Stage::PrFailed => StageView::PrFailed,
            Stage::Done => StageView::Done,
        }
    }
}

/// A request as plain values.
#[verifier::ext_equal]
pub enum RequestView {
    Git(Seq<Seq<char>>),
    LogGrep(Seq<Seq<char>>),
    Status,
    HeadLog,
    Say(Seq<char>),
    Push(Seq<char>),
    OpenPr {
        url: Seq<char>,
        authorization: Seq<char>,
        accept: Seq<char>,
        user_agent: Seq<char>,
        title: Seq<char>,
        head: Seq<char>,
        base: Seq<char>,
        body: Seq<char>,
        maintainer_can_modify: bool,
    },
    Warn(Seq<char>),
    Finish(Option<InfoView>, Option<Seq<char>>),
}

impl View for Request {
    type V = RequestView;

    open spec fn view(&self) -> RequestView {
        match self {
            Request::Git(a) => RequestView::Git(words_of(a@)),
            Request::LogGrep(a) => RequestView::LogGrep(words_of(a@)),
            Request::Status => RequestView::Status,
            Request::HeadLog => RequestView::HeadLog,
            Request::Say(s) => RequestView::Say(s@),
            Request::Push(s) => RequestView::Push(s@),
            Request::OpenPr {
                url,
                authorization,
                accept,
                user_agent,
                title,
                head,
                base,
                body,
                maintainer_can_modify,
            } => RequestView::OpenPr {
                url: url@,
                authorization: authorization@,
                accept: accept@,
                user_agent: user_agent@,
                title: title@,
                head: head@,
                base: base@,
                body: body@,
                maintainer_can_modify: *maintainer_can_modify,
            },
            Request::Warn(s) => RequestView::Warn(s@),
            Request::Finish(info, url) => RequestView::Finish(
                match info {
                    Some(i) => Some(i@),
                    None => None,
                },
                opt_text(*url),
            ),
        }
    }
}

/// A reply as plain values.
pub open spec fn reply_text(r: Option<Result<String, String>>) -> Option<Result<Seq<char>, Seq<char>>> {
    match r {
        Some(Ok(s)) => Some(Ok(s@)),
        Some(Err(e)) => Some(Err(e@)),
        None => None,
    }
}

/// The branch that a checkout in repository `name` goes to: the alias's
/// branch for `name`, or the raw target when no alias was found.
pub open spec fn checkout_target(name: Seq<char>, alias: Option<Props>, raw_target: Seq<char>) -> Option<Seq<char>> {
    match alias {
        Some(p) => if as_map(p).contains_key(name) {
            Some(as_map(p)[name])
        } else {
            None
        },
        None => if raw_target.len() == 0 {
            None
        } else {
            Some(raw_target)
        },
    }
}

/// The `git` arguments of a checkout in repository `name`, or the error
/// reported when the alias has no branch for it.
pub open spec fn checkout_command(
    name: Seq<char>,
    new_branch: Option<Seq<char>>,
    alias: Option<Props>,
    raw_target: Seq<char>,
) -> Result<Seq<Seq<char>>, Seq<char>> {
    let target = checkout_target(name, alias, raw_target);
    if alias is Some && target is None {
        Err("no branch alias entry for "@ + name)
    } else {
        let with_new = match new_branch {
            Some(nb) => seq!["checkout"@, "-b"@, nb],
            None => seq!["checkout"@],
        };
        Ok(match target {
            Some(t) => with_new.push(t),
            None => with_new,
        })
    }
}

/// A command's output and error as a report holds them.
pub open spec fn outcome(r: Option<Result<Seq<char>, Seq<char>>>) -> (Seq<char>, Option<Seq<char>>) {
    match r {
        Some(Ok(o)) => (o, None),
        Some(Err(e)) => (Seq::empty(), Some(e)),
        None => (Seq::empty(), None),
    }
}

/// The log search found something: it succeeded with output that is not
/// all white space.
pub open spec fn log_matched(r: Option<Result<Seq<char>, Seq<char>>>) -> bool {
    match r {
        Some(Ok(s)) => !blank(s),
        _ => false,
    }
}

/// The branch a pull request merges into: the part after the slash of a
/// tracking branch `remote/branch`, or the tracking branch as it is.
pub open spec fn merge_target(tracking: Seq<char>) -> Seq<char> {
    let parts = split(utf8(tracking), 0x2f);
    if parts.len() == 2 {
        decode_utf8(parts[1])
    } else {
        tracking
    }
}

/// The URL of the GitHub API that opens pull requests for repository
/// `project` owned by `org`.
pub open spec fn pulls_url(org: Seq<char>, project: Seq<char>) -> Seq<char> {
    "https://api.github.com/repos/"@ + org + "/"@ + project + "/pulls"@
}

/// The report assembled once the HEAD log came back.
pub open spec fn report(
    name: Seq<char>,
    dir: Seq<char>,
    output: Seq<char>,
    error: Option<Seq<char>>,
    status: StatusView,
    head: Option<Result<Seq<char>, Seq<char>>>,
) -> InfoView {
    InfoView {
        name,
        dir,
        repo_status: status,
        cmd_output: output,
        cmd_error: error,
        tags: match head {
            Some(Ok(t)) => head_tags(utf8(t)),
            _ => Seq::empty(),
        },
        remote_branches: match head {
            Some(Ok(t)) => head_remote_branches(utf8(t)),
            _ => Seq::empty(),
        },
    }
}

/// The status text that came back.
pub open spec fn status_text(r: Option<Result<Seq<char>, Seq<char>>>) -> Seq<char> {
    match r {
        Some(Ok(t)) => t,
        _ => Seq::empty(),
    }
}

/// The next stage and request of the work in repository `name` at `dir`,
/// given the invocation's action, words, GitHub token and org, the stage
/// reached, and
/// what the last request gave back.
pub open spec fn next(
    action: ActionView,
    words: Seq<Seq<char>>,
    token: Seq<char>,
    org: Seq<char>,
    name: Seq<char>,
    dir: Seq<char>,
    stage: StageView,
    reply: Option<Result<Seq<char>, Seq<char>>>,
) -> (StageView, RequestView) {
    match stage {
        StageView::Start => match action {
            ActionView::Status => (
                StageView::AwaitStatus { output: Seq::empty(), error: None },
                RequestView::Status,
            ),
            ActionView::Generic => (StageView::AwaitCommand, RequestView::Git(words)),
            ActionView::Grep => (StageView::AwaitCommand, RequestView::LogGrep(words.skip(1))),
            ActionView::Pr => (StageView::PrAwaitLog, RequestView::LogGrep(seq![words[1]])),
            ActionView::Checkout { new_branch, alias, raw_target } => match checkout_command(
                name,
                new_branch,
                alias,
                raw_target,
            ) {
                Ok(argv) => (StageView::AwaitCommand, RequestView::Git(argv)),
                Err(e) => (
                    StageView::AwaitStatus { output: Seq::empty(), error: Some(e) },
                    RequestView::Status,
                ),
            },
        },
        StageView::AwaitCommand => (
            StageView::AwaitStatus { output: outcome(reply).0, error: outcome(reply).1 },
            RequestView::Status,
        ),
        StageView::AwaitStatus { output, error } => (
            StageView::AwaitHead { output, error, status: parsed_status(utf8(status_text(reply))) },
            RequestView::HeadLog,
        ),
        StageView::AwaitHead { output, error, status } => (
            StageView::Done,
            RequestView::Finish(Some(report(name, dir, output, error, status, reply)), None),
        ),
        StageView::PrAwaitLog => (
            StageView::PrAwaitStatus { matched: log_matched(reply) },
            RequestView::Status,
        ),
        StageView::PrAwaitStatus { matched } => if matched {
            let base = merge_target(parsed_status(utf8(status_text(reply))).tracking_branch);
            (StageView::PrAnnounced { base }, RequestView::Say(name + " - "@ + dir + ":"@))
        } else {
            (StageView::Done, RequestView::Finish(None, None))
        },
        StageView::PrAnnounced { base } => (
            StageView::PrAwaitPush { base },
            RequestView::Push("HEAD:"@ + words[2]),
        ),
        StageView::PrAwaitPush { base } => match reply {
            Some(Ok(_)) => (
                StageView::PrAwaitOpen,
                RequestView::OpenPr {
                    url: pulls_url(org, name),
                    authorization: "token "@ + token,
                    accept: "application/vnd.github+json"@,
                    user_agent: "git-super"@,
                    title: words[2],
                    head: words[2],
                    base,
                    body: Seq::empty(),
                    maintainer_can_modify: true,
                },
            ),
            _ => (
                StageView::PrFailed,
                RequestView::Warn("error creating PR for "@ + name + ": "@ + outcome(reply).1.unwrap_or(Seq::empty())),
            ),
        },
        StageView::PrAwaitOpen => match reply {
            Some(Ok(body)) => match created_pr_url(body) {
                Ok(url) => (StageView::PrOpened { url }, RequestView::Say("PR created: "@ + url)),
                Err(e) => (StageView::PrFailed, RequestView::Warn("error creating PR for "@ + name + ": "@ + e)),
            },
            _ => (
                StageView::PrFailed,
                RequestView::Warn("error creating PR for "@ + name + ": "@ + outcome(reply).1.unwrap_or(Seq::empty())),
            ),
        },
        StageView::PrOpened { url } => (StageView::Done, RequestView::Finish(None, Some(url))),
        StageView::PrFailed => (StageView::Done, RequestView::Finish(None, None)),
        StageView::Done => (StageView::Done, RequestView::Finish(None, None)),
    }
}

/// The stage waits for something to come back.
pub open spec fn awaits_reply(stage: StageView) -> bool {
    match stage {
        StageView::AwaitCommand | StageView::AwaitStatus { .. } | StageView::AwaitHead { .. }
        | StageView::PrAwaitLog | StageView::PrAwaitStatus { .. } | StageView::PrAwaitPush { .. }
        | StageView::PrAwaitOpen => true,
        _ => false,
    }
}

/// The stage waits for the status text.
pub open spec fn awaits_status(stage: StageView) -> bool {
    match stage {
        StageView::AwaitStatus { .. } | StageView::PrAwaitStatus { .. } => true,
        _ => false,
    }
}

/// What the caller must give back at a stage: something where the stage
/// waits for it, and status text that `parse_status` can read where it waits
/// for the status.
pub open spec fn fitting_reply(stage: StageView, reply: Option<Result<Seq<char>, Seq<char>>>) -> bool {
    &&& awaits_reply(stage) ==> reply is Some
    &&& awaits_status(stage) ==> (reply matches Some(Ok(t)) && status_readable(utf8(t)))
}

/// Command words or an error as plain values.
pub open spec fn argv_or_error(r: Result<Vec<String>, String>) -> Result<Seq<Seq<char>>, Seq<char>> {
    match r {
        Ok(v) => Ok(words_of(v@)),
        Err(e) => Err(e@),
    }
}

/// The `git` arguments of a checkout in repository `name`, or the error
/// reported when the alias has no branch for it.
fn checkout_argv(name: &str, new_branch: &Option<String>, alias_map: &Option<crate::config::AliasMap>, raw_target: &String) -> (r: Result<Vec<String>, String>)
    ensures
        argv_or_error(r) == checkout_command(name@, opt_text(*new_branch), alias_pairs(*alias_map), raw_target@),
{
    let target: Option<String> = match alias_map {
        Some(m) => m.get(name),
        None => if raw_target.as_str().is_empty() {
            None
        } else {
            Some(raw_target.clone())
        },
    };
    if alias_map.is_some() && target.is_none() {
        let mut e = "no branch alias entry for ".to_owned();
        e.append(name);
        return Err(e);
    }
    let mut argv: Vec<String> = Vec::new();
    argv.push("checkout".to_owned());
    if let Some(nb) = new_branch {
        argv.push("-b".to_owned());
        argv.push(nb.clone());
    }
    if let Some(t) = target {
        argv.push(t);
    }
    assert(words_of(argv@) =~= checkout_command(name@, opt_text(*new_branch), alias_pairs(*alias_map), raw_target@)->Ok_0);
    Ok(argv)
}

/// The branch a pull request merges into, from the tracking branch.
fn merge_branch(tracking: &String) -> (r: String)
    ensures
        r@ == merge_target(tracking@),
{
    let parts = split_str(tracking.as_str(), 0x2f);
    assert(parts@.map_values(|x: &str| x.spec_bytes()).len() == parts@.len());
    if parts.len() == 2 {
        assert(parts@.map_values(|x: &str| x.spec_bytes())[1] == parts@[1].spec_bytes());
        parts[1].to_owned()
    } else {
        tracking.clone()
    }
}

/// The message reported when opening a pull request failed.
fn failure_message(name: &str, e: &str) -> (r: String)
    ensures
        r@ == "error creating PR for "@ + name@ + ": "@ + e@,
{
    let mut m = "error creating PR for ".to_owned();
    m.append(name);
    m.append(": ");
    m.append(e);
    m
}

/// Decides the next step of the work in repository `name` at `dir`: from the
/// stage reached and what the last request gave back, the next stage and
/// the request to carry out.
pub fn advance(
    action: &Action,
    words: &Vec<String>,
    token: &str,
    org: &str,
    name: &str,
    dir: &str,
    stage: Stage,
    reply: Option<Result<String, String>>,
) -> (r: (Stage, Request))
    requires
        words@.len() >= 1,
        action@ is Pr || stage@ is PrAnnounced || stage@ is PrAwaitPush ==> words@.len() >= 3,
        fitting_reply(stage@, reply_text(reply)),
    ensures
        (r.0@, r.1@) == next(action@, words_of(words@), token@, org@, name@, dir@, stage@, reply_text(reply)),
{
    let ghost w = words_of(words@);
    match stage {
        Stage::Start => match action {
            Action::Status => (Stage::AwaitStatus { output: String::new(), error: None }, Request::Status),
            Action::Generic => {
                let argv = words.clone();
                assert(words_of(argv@) =~= w);
                (Stage::AwaitCommand, Request::Git(argv))
            },
            Action::Grep => {
                let mut argv: Vec<String> = Vec::new();
                let mut i: usize = 1;
                assert(w.subrange(1, 1) =~= Seq::<Seq<char>>::empty());
                while i < words.len()
                    invariant
                        1 <= i <= words@.len(),
                        w == words_of(words@),
                        words_of(argv@) == w.subrange(1, i as int),
                    decreases words@.len() - i,
                {
                    let ghost before = argv@;
                    argv.push(words[i].clone());
                    assert(words_of(argv@) =~= words_of(before).push(words@[i as int]@));
                    assert(w.subrange(1, i + 1) =~= w.subrange(1, i as int).push(w[i as int]));
                    i += 1;
                }
                assert(words_of(argv@) =~= w.skip(1));
                (Stage::AwaitCommand, Request::LogGrep(argv))
            },
            Action::Pr => {
                let mut argv: Vec<String> = Vec::new();
                argv.push(words[1].clone());
                assert(words_of(argv@) =~= seq![w[1]]);
                (Stage::PrAwaitLog, Request::LogGrep(argv))
            },
            Action::Checkout { new_branch, alias_map, raw_target } => match checkout_argv(
                name,
                new_branch,
                alias_map,
                raw_target,
            ) {
                Ok(argv) => (Stage::AwaitCommand, Request::Git(argv)),
                Err(e) => (Stage::AwaitStatus { output: String::new(), error: Some(e) }, Request::Status),
            },
        },
        Stage::AwaitCommand => match reply {
            Some(Ok(o)) => (Stage::AwaitStatus { output: o, error: None }, Request::Status),
            Some(Err(e)) => (Stage::AwaitStatus { output: String::new(), error: Some(e) }, Request::Status),
            None => (Stage::AwaitStatus { output: String::new(), error: None }, Request::Status),
        },
        Stage::AwaitStatus { output, error } => {
            let text = match reply {
                Some(Ok(t)) => t,
                _ => String::new(),
            };
            let status = parse_status(text.as_str());
            (Stage::AwaitHead { output, error, status }, Request::HeadLog)
        },
        Stage::AwaitHead { output, error, status } => {
            let head = match reply {
                Some(r) => r,
                None => Err(String::new()),
            };
            let (tags, remote_branches) = head_remote_state(&head);
            let info = ProjectInfo {
                name: name.to_owned(),
                dir: dir.to_owned(),
                repo_status: status,
                cmd_output: output,
                cmd_error: error,
                tags,
                remote_branches,
            };
            (Stage::Done, Request::Finish(Some(info), None))
        },
        Stage::PrAwaitLog => {
            let matched = match &reply {
                Some(Ok(s)) => !is_blank(s.as_str()),
                _ => false,
            };
            (Stage::PrAwaitStatus { matched }, Request::Status)
        },
        Stage::PrAwaitStatus { matched } => {
            if matched {
                let text = match reply {
                    Some(Ok(t)) => t,
                    _ => String::new(),
                };
                let status = parse_status(text.as_str());
                let base = merge_branch(&status.tracking_branch);
                let mut line = name.to_owned();
                line.append(" - ");
                line.append(dir);
                line.append(":");
                (Stage::PrAnnounced { base }, Request::Say(line))
            } else {
                (Stage::Done, Request::Finish(None, None))
            }
        },
        Stage::PrAnnounced { base } => {
            let mut refspec = "HEAD:".to_owned();
            refspec.append(words[2].as_str());
            (Stage::PrAwaitPush { base }, Request::Push(refspec))
        },
        Stage::PrAwaitPush { base } => match reply {
            Some(Ok(_)) => {
                let mut url = "https://api.github.com/repos/".to_owned();
                url.append(org);
                url.append("/");
                url.append(name);
                url.append("/pulls");
                let mut authorization = "token ".to_owned();
                authorization.append(token);
                (
                    Stage::PrAwaitOpen,
                    Request::OpenPr {
                        url,
                        authorization,
                        accept: "application/vnd.github+json".to_owned(),
                        user_agent: "git-super".to_owned(),
                        title: words[2].clone(),
                        head: words[2].clone(),
                        base,
                        body: String::new(),
                        maintainer_can_modify: true,
                    },
                )
            },
            Some(Err(e)) => (Stage::PrFailed, Request::Warn(failure_message(name, e.as_str()))),
            None => (Stage::PrFailed, Request::Warn(failure_message(name, ""))),
        },
        Stage::PrAwaitOpen => match reply {
            Some(Ok(body)) => match pr_url_of_reply(body.as_str()) {
                Ok(url) => {
                    let mut line = "PR created: ".to_owned();
                    line.append(url.as_str());
                    (Stage::PrOpened { url }, Request::Say(line))
                },
                Err(e) => (Stage::PrFailed, Request::Warn(failure_message(name, e.as_str()))),
            },
            Some(Err(e)) => (Stage::PrFailed, Request::Warn(failure_message(name, e.as_str()))),
            None => (Stage::PrFailed, Request::Warn(failure_message(name, ""))),
        },
        Stage::PrOpened { url } => (Stage::Done, Request::Finish(None, Some(url))),
        Stage::PrFailed => (Stage::Done, Request::Finish(None, None)),
        Stage::Done => (Stage::Done, Request::Finish(None, None)),
    }
}

/// How many steps a stage is at most from the end of the work.
pub open spec fn rank(stage: StageView) -> nat {
    match stage {
        StageView::Start => 10,
        StageView::PrAwaitLog => 9,
        StageView::PrAwaitStatus { .. } => 8,
        StageView::PrAnnounced { .. } => 7,
        StageView::PrAwaitPush { .. } => 6,
        StageView::PrAwaitOpen => 5,
        StageView::PrOpened { .. } => 4,
        StageView::PrFailed => 4,
        StageView::AwaitCommand => 3,
        StageView::AwaitStatus { .. } => 2,
        StageView::AwaitHead { .. } => 1,
        StageView::Done => 0,
    }
}

/// The work in every repository finishes: a step from a stage that is not
/// finished moves to a stage of lower rank, and a step asks the caller to
/// finish exactly when it reaches the finished stage.
pub proof fn law_work_finishes(
    action: ActionView,
    words: Seq<Seq<char>>,
    token: Seq<char>,
    org: Seq<char>,
    name: Seq<char>,
    dir: Seq<char>,
    stage: StageView,
    reply: Option<Result<Seq<char>, Seq<char>>>,
)
    ensures
        !(stage is Done) ==> rank(next(action, words, token, org, name, dir, stage, reply).0) < rank(stage),
        next(action, words, token, org, name, dir, stage, reply).1 is Finish <==> next(action, words, token, org, name, dir, stage, reply).0 is Done,
{
}

/// The words of `git checkout [-b <new_branch>]`.
pub open spec fn checkout_prefix(new_branch: Option<Seq<char>>) -> Seq<Seq<char>> {
    match new_branch {
        Some(nb) => seq!["checkout"@, "-b"@, nb],
        None => seq!["checkout"@],
    }
}

/// A repository that the branch alias does not list is left untouched: no
/// git command runs there, its status is read, and its report carries
/// `no branch alias entry for <repo>`.
pub proof fn law_checkout_unlisted_repository(
    words: Seq<Seq<char>>,
    token: Seq<char>,
    org: Seq<char>,
    name: Seq<char>,
    dir: Seq<char>,
    new_branch: Option<Seq<char>>,
    alias: Props,
    raw_target: Seq<char>,
    reply: Option<Result<Seq<char>, Seq<char>>>,
)
    requires
        !as_map(alias).contains_key(name),
    ensures
        next(
            ActionView::Checkout { new_branch, alias: Some(alias), raw_target },
            words,
            token,
            org,
            name,
            dir,
            StageView::Start,
            reply,
        ) == (
            StageView::AwaitStatus { output: Seq::empty(), error: Some("no branch alias entry for "@ + name) },
            RequestView::Status,
        ),
{
}

/// A branch alias resolves per repository: the checkout runs
/// `git checkout [-b <new_branch>] <the alias's branch for this repository>`.
pub proof fn law_checkout_alias_resolved(
    words: Seq<Seq<char>>,
    token: Seq<char>,
    org: Seq<char>,
    name: Seq<char>,
    dir: Seq<char>,
    new_branch: Option<Seq<char>>,
    alias: Props,
    raw_target: Seq<char>,
    reply: Option<Result<Seq<char>, Seq<char>>>,
)
    requires
        as_map(alias).contains_key(name),
    ensures
        next(
            ActionView::Checkout { new_branch, alias: Some(alias), raw_target },
            words,
            token,
            org,
            name,
            dir,
            StageView::Start,
            reply,
        ).1 == RequestView::Git(checkout_prefix(new_branch).push(as_map(alias)[name])),
{
}

/// Without an alias section the target passes through unchanged:
/// `git checkout [-b <new_branch>] [<target>]`.
pub proof fn law_checkout_passthrough(
    words: Seq<Seq<char>>,
    token: Seq<char>,
    org: Seq<char>,
    name: Seq<char>,
    dir: Seq<char>,
    new_branch: Option<Seq<char>>,
    raw_target: Seq<char>,
    reply: Option<Result<Seq<char>, Seq<char>>>,
)
    ensures
        next(
            ActionView::Checkout { new_branch, alias: None, raw_target },
            words,
            token,
            org,
            name,
            dir,
            StageView::Start,
            reply,
        ).1 == RequestView::Git(
            if raw_target.len() == 0 {
                checkout_prefix(new_branch)
            } else {
                checkout_prefix(new_branch).push(raw_target)
            },
        ),
{
}

/// A pull request is pushed only where the log search found something: a
/// repository whose search found nothing finishes with nothing pushed and
/// no report; one whose search matched announces itself and then pushes
/// `HEAD` as the requested branch.
pub proof fn law_pr_only_where_log_matches(
    words: Seq<Seq<char>>,
    token: Seq<char>,
    org: Seq<char>,
    name: Seq<char>,
    dir: Seq<char>,
    log: Option<Result<Seq<char>, Seq<char>>>,
    status: Option<Result<Seq<char>, Seq<char>>>,
    nothing: Option<Result<Seq<char>, Seq<char>>>,
)
    requires
        words.len() >= 3,
    ensures
        ({
            let after_log = next(ActionView::Pr, words, token, org, name, dir, StageView::PrAwaitLog, log).0;
            let after_status = next(ActionView::Pr, words, token, org, name, dir, after_log, status);
            &&& !log_matched(log) ==> after_status == (StageView::Done, RequestView::Finish(None, None))
            &&& log_matched(log) ==> after_status.1 == RequestView::Say(name + " - "@ + dir + ":"@)
                && next(ActionView::Pr, words, token, org, name, dir, after_status.0, nothing).1
                == RequestView::Push("HEAD:"@ + words[2])
        }),
{
}

/// The stage belongs to the action: the pull-request stages only to `pr`,
/// the stages of a command, its status and its HEAD log only to the others.
pub open spec fn stage_fits(action: ActionView, stage: StageView) -> bool {
    match stage {
        StageView::Start | StageView::Done => true,
        StageView::AwaitCommand | StageView::AwaitStatus { .. } | StageView::AwaitHead { .. } => !(action is Pr),
        _ => action is Pr,
    }
}

/// The stage and request after the first request and then one more step for
/// each reply in `replies`, in order.
pub open spec fn run(
    action: ActionView,
    words: Seq<Seq<char>>,
    token: Seq<char>,
    org: Seq<char>,
    name: Seq<char>,
    dir: Seq<char>,
    replies: Seq<Option<Result<Seq<char>, Seq<char>>>>,
) -> (StageView, RequestView)
    decreases replies.len(),
{
    if replies.len() == 0 {
        next(action, words, token, org, name, dir, StageView::Start, None)
    } else {
        let before = run(action, words, token, org, name, dir, replies.drop_last());
        next(action, words, token, org, name, dir, before.0, replies.last())
    }
}

/// Every stage of a run belongs to its action.
proof fn lemma_run_fits(
    action: ActionView,
    words: Seq<Seq<char>>,
    token: Seq<char>,
    org: Seq<char>,
    name: Seq<char>,
    dir: Seq<char>,
    replies: Seq<Option<Result<Seq<char>, Seq<char>>>>,
)
    ensures
        stage_fits(action, run(action, words, token, org, name, dir, replies).0),
    decreases replies.len(),
{
    if replies.len() > 0 {
        lemma_run_fits(action, words, token, org, name, dir, replies.drop_last());
    }
}

/// The report that a finished run gives: a report of repository `name` at
/// `dir` exactly when the action is not `pr`, and a pull request's URL only
/// for `pr`.
pub open spec fn finish_shape(action: ActionView, name: Seq<char>, dir: Seq<char>, request: RequestView) -> bool {
    request matches RequestView::Finish(info, url) ==> {
        &&& (info is None <==> action is Pr)
        &&& (url is Some ==> action is Pr)
        &&& (info matches Some(i) ==> i.name == name && i.dir == dir)
    }
}

/// However the requests are answered, the run of a repository finishes
/// with a report of that repository (its name and directory) exactly when
/// the action is not `pr`, and only `pr` gives a pull request's URL: the
/// first `Finish` request of a run has that shape.
pub proof fn law_finish_shape(
    action: ActionView,
    words: Seq<Seq<char>>,
    token: Seq<char>,
    org: Seq<char>,
    name: Seq<char>,
    dir: Seq<char>,
    replies: Seq<Option<Result<Seq<char>, Seq<char>>>>,
)
    requires
        replies.len() > 0 ==> !(run(action, words, token, org, name, dir, replies.drop_last()).0 is Done),
    ensures
        finish_shape(action, name, dir, run(action, words, token, org, name, dir, replies).1),
{
    if replies.len() > 0 {
        lemma_run_fits(action, words, token, org, name, dir, replies.drop_last());
    }
}

/// The GitHub token and org touch nothing but pull requests: for any action
/// but `pr`, a run with one token and org asks for the same things, in the
/// same order, and gives the same report as a run with another.
pub proof fn law_token_only_for_pull_requests(
    action: ActionView,
    words: Seq<Seq<char>>,
    token1: Seq<char>,
    org1: Seq<char>,
    token2: Seq<char>,
    org2: Seq<char>,
    name: Seq<char>,
    dir: Seq<char>,
    replies: Seq<Option<Result<Seq<char>, Seq<char>>>>,
)
    requires
        !(action is Pr),
    ensures
        run(action, words, token1, org1, name, dir, replies) == run(action, words, token2, org2, name, dir, replies),
    decreases replies.len(),
{
    if replies.len() > 0 {
        law_token_only_for_pull_requests(action, words, token1, org1, token2, org2, name, dir, replies.drop_last());
        lemma_run_fits(action, words, token1, org1, name, dir, replies.drop_last());
    }
}

/// The request with the `Authorization` header of a pull request left out.
pub open spec fn without_authorization(request: RequestView) -> RequestView {
    match request {
        RequestView::OpenPr {
            url,
            authorization,
            accept,
            user_agent,
            title,
            head,
            base,
            body,
            maintainer_can_modify,
        } => RequestView::OpenPr {
            url,
            authorization: Seq::empty(),
            accept,
            user_agent,
            title,
            head,
            base,
            body,
            maintainer_can_modify,
        },
        other => other,
    }
}

/// The GitHub token goes nowhere but into the `Authorization` header of a
/// pull request: for every action, two runs that differ only in the token
/// reach the same stages and make the same requests, but for that header.
pub proof fn law_token_only_in_authorization(
    action: ActionView,
    words: Seq<Seq<char>>,
    token1: Seq<char>,
    token2: Seq<char>,
    org: Seq<char>,
    name: Seq<char>,
    dir: Seq<char>,
    replies: Seq<Option<Result<Seq<char>, Seq<char>>>>,
)
    ensures
        run(action, words, token1, org, name, dir, replies).0 == run(action, words, token2, org, name, dir, replies).0,
        without_authorization(run(action, words, token1, org, name, dir, replies).1)
            == without_authorization(run(action, words, token2, org, name, dir, replies).1),
    decreases replies.len(),
{
    if replies.len() > 0 {
        law_token_only_in_authorization(action, words, token1, token2, org, name, dir, replies.drop_last());
    }
}

} // verus!
