//! What a `git super <cmd> ...` invocation asks for, given the configuration.

use vstd::prelude::*;
use vstd::utf8::*;
use vstd::string::*;
use crate::config::{
    alias_section, config_value, entries_of, ini_sections, opt_text, pairs, resolve_alias, section_of,
    str_eq, value_of, AliasMap, Props,
};
use crate::order::{Named, lemma_filter_map_values, name_is, named, sort_by_name, sorted_by_name};
use crate::text::utf8;

verus! {

broadcast use {encode_utf8_decode_utf8};

/// What to do in each repository.
pub enum Action {
    /// Report the status of each repository.
    Status,
    /// Run the git command with its arguments.
    Generic,
    /// Search each repository's one-line log.
    Grep,
    /// Open a pull request where the log matches.
    Pr,
    /// Check out a branch, an alias resolved per repository, or a new branch.
    Checkout { new_branch: Option<String>, alias_map: Option<AliasMap>, raw_target: String },
}

/// An action as plain values; a branch alias is its section's pairs.
pub enum ActionView {
    Status,
    Generic,
    Grep,
    Pr,
    Checkout { new_branch: Option<Seq<char>>, alias: Option<Props>, raw_target: Seq<char> },
}

/// The pairs of an optional branch alias.
pub open spec fn alias_pairs(a: Option<AliasMap>) -> Option<Props> {
    match a {
        Some(m) => Some(pairs(m.entries@)),
        None => None,
    }
}

impl View for Action {
    type V = ActionView;

    open spec fn view(&self) -> ActionView {
        match self {
            Action::Status => ActionView::Status,
            Action::Generic => ActionView::Generic,
            Action::Grep => ActionView::Grep,
            Action::Pr => ActionView::Pr,
            Action::Checkout { new_branch, alias_map, raw_target } => ActionView::Checkout {
                new_branch: opt_text(*new_branch),
                alias: alias_pairs(*alias_map),
                raw_target: raw_target@,
            },
        }
    }
}

/// Why an invocation is refused.
pub enum UsageError {
    /// The command is not listed in `[commands]`.
    Unsupported(String),
    /// `grep` was given no pattern.
    NeedsArguments(String),
    /// `pr` was not given exactly a log pattern and a branch name.
    PrUsage,
    /// `pr` needs `[github] token`.
    NoToken,
    /// `checkout` was given neither `-b <branch>` nor a target, or more than one target.
    CheckoutUsage,
}

/// Why an invocation is refused, as plain values.
pub enum Problem {
    Unsupported(Seq<char>),
    NeedsArguments(Seq<char>),
    PrUsage,
    NoToken,
    CheckoutUsage,
}

impl View for UsageError {
    type V = Problem;

    open spec fn view(&self) -> Problem {
        match self {
            UsageError::Unsupported(c) => Problem::Unsupported(c@),
            UsageError::NeedsArguments(c) => Problem::NeedsArguments(c@),
            UsageError::PrUsage => Problem::PrUsage,
            UsageError::NoToken => Problem::NoToken,
            UsageError::CheckoutUsage => Problem::CheckoutUsage,
        }
    }
}

/// The message printed for a refused invocation.
pub open spec fn problem_message(p: Problem) -> Seq<char> {
    match p {
        Problem::Unsupported(c) => "error: "@ + c + " command is not supported"@,
        Problem::NeedsArguments(c) => "error: "@ + c + " command requires more arguments"@,
        Problem::PrUsage => "usage: git super pr <log_pattern> <pr_branch_name>"@,
        Problem::NoToken => "error: github token is not set in .git-super"@,
        Problem::CheckoutUsage => "usage: git super checkout [-b <new_branch>] [<target>]"@,
    }
}

impl UsageError {
    /// The message printed for this error.
    pub fn message(&self) -> (r: String)
        ensures
            r@ == problem_message(self@),
    {
        match self {
            UsageError::Unsupported(c) => {
                let mut m = "error: ".to_owned();
                m.append(c.as_str());
                m.append(" command is not supported");
                m
            },
            UsageError::NeedsArguments(c) => {
                let mut m = "error: ".to_owned();
                m.append(c.as_str());
                m.append(" command requires more arguments");
                m
            },
            UsageError::PrUsage => "usage: git super pr <log_pattern> <pr_branch_name>".to_owned(),
            UsageError::NoToken => "error: github token is not set in .git-super".to_owned(),
            UsageError::CheckoutUsage => "usage: git super checkout [-b <new_branch>] [<target>]".to_owned(),
        }
    }
}

/// A subproject: its name and its directory.
pub struct Subproject {
    pub name: String,
    pub dir: String,
}

impl Named for Subproject {
    open spec fn name_bytes(&self) -> Seq<u8> {
        utf8(self.name@)
    }

    fn name_str(&self) -> (r: &str) {
        self.name.as_str()
    }
}

/// Subprojects as name/directory pairs.
pub open spec fn subproject_pairs(s: Seq<Subproject>) -> Props {
    s.map_values(|p: Subproject| (p.name@, p.dir@))
}

/// Holds of the pairs whose name is `k` in UTF-8.
pub open spec fn pair_named(k: Seq<u8>) -> spec_fn((Seq<char>, Seq<char>)) -> bool {
    |e: (Seq<char>, Seq<char>)| utf8(e.0) == k
}

/// The subprojects of `[subprojects]`: sorted by name, and those with equal
/// names in the order the section lists them.
pub open spec fn sorted_subprojects(secs: Seq<(Option<Seq<char>>, Props)>, r: Seq<Subproject>) -> bool {
    let listed = match section_of(secs, "subprojects"@) {
        Some(p) => p,
        None => Seq::empty(),
    };
    &&& sorted_by_name(r)
    &&& forall|k: Seq<u8>| #[trigger] subproject_pairs(named(r, k)) == listed.filter(pair_named(k))
}

/// The subprojects of the configuration, sorted by name.
pub fn subprojects(config: &ini::Ini) -> (r: Vec<Subproject>)
    ensures
        sorted_subprojects(ini_sections(*config), r@),
{
    let entries = entries_of(config, "subprojects");
    let ghost listed = pairs(entries@);
    let mut items: Vec<Subproject> = Vec::new();
    let mut i: usize = 0;
    while i < entries.len()
        invariant
            i <= entries@.len(),
            listed == pairs(entries@),
            subproject_pairs(items@) == listed.take(i as int),
        decreases entries@.len() - i,
    {
        let name = entries[i].0.clone();
        let dir = entries[i].1.clone();
        let ghost before = items@;
        items.push(Subproject { name, dir });
        assert(subproject_pairs(items@) =~= subproject_pairs(before).push((name@, dir@)));
        assert(listed.take(i + 1) =~= listed.take(i as int).push(listed[i as int]));
        i += 1;
    }
    assert(listed.take(entries@.len() as int) =~= listed);
    let ghost unsorted = items@;
    let sorted = sort_by_name(items);
    proof {
        assert forall|k: Seq<u8>| #[trigger] subproject_pairs(named(sorted@, k)) == listed.filter(pair_named(k)) by {
            let f = |p: Subproject| (p.name@, p.dir@);
            assert forall|a: Subproject| #[trigger] name_is::<Subproject>(k)(a) == pair_named(k)(f(a)) by {}
            lemma_filter_map_values(unsorted, f, pair_named(k), name_is::<Subproject>(k));
            assert(subproject_pairs(unsorted) == unsorted.map_values(f));
        }
    }
    sorted
}

/// Whether `[commands]` lists `cmd`.
pub open spec fn supported(secs: Seq<(Option<Seq<char>>, Props)>, cmd: Seq<char>) -> bool {
    match section_of(secs, "commands"@) {
        Some(p) => exists|j: int| 0 <= j < p.len() && #[trigger] p[j].0 == cmd,
        None => false,
    }
}

/// The `[github] org`, the GitHub organization or user that owns the
/// repositories, or empty.
pub open spec fn github_org(secs: Seq<(Option<Seq<char>>, Props)>) -> Seq<char> {
    match config_value(secs, "github"@, "org"@) {
        Some(o) => o,
        None => Seq::empty(),
    }
}

/// The owner of the repositories that pull requests are opened in: the
/// `[github] org`, or `stackpath` where none is set.
pub open spec fn pr_owner(secs: Seq<(Option<Seq<char>>, Props)>) -> Seq<char> {
    if github_org(secs).len() == 0 {
        "stackpath"@
    } else {
        github_org(secs)
    }
}

/// The `[github] token`, or empty.
pub open spec fn github_token(secs: Seq<(Option<Seq<char>>, Props)>) -> Seq<char> {
    match config_value(secs, "github"@, "token"@) {
        Some(t) => t,
        None => Seq::empty(),
    }
}

/// The new branch and the target that the words of `checkout` from `i` on
/// give, with `-b` taking the next word as the new branch (a later `-b`
/// wins); `None` when `-b` comes last, a second target appears, or neither
/// was given.
pub open spec fn checkout_words(
    words: Seq<Seq<char>>,
    i: int,
    new_branch: Option<Seq<char>>,
    target: Option<Seq<char>>,
) -> Option<(Option<Seq<char>>, Option<Seq<char>>)>
    decreases words.len() - i,
{
    if i < 0 || i >= words.len() {
        if new_branch is None && target is None {
            None
        } else {
            Some((new_branch, target))
        }
    } else if words[i] == "-b"@ {
        if i + 1 >= words.len() {
            None
        } else {
            checkout_words(words, i + 2, Some(words[i + 1]), target)
        }
    } else if target is Some {
        None
    } else {
        checkout_words(words, i + 1, new_branch, Some(words[i]))
    }
}

/// Why the invocation `words` (the command, then its arguments) is refused.
pub open spec fn problem(secs: Seq<(Option<Seq<char>>, Props)>, words: Seq<Seq<char>>) -> Option<Problem> {
    let c = words[0];
    if !supported(secs, c) {
        Some(Problem::Unsupported(c))
    } else if c == "grep"@ && words.len() == 1 {
        Some(Problem::NeedsArguments(c))
    } else if c == "pr"@ && words.len() != 3 {
        Some(Problem::PrUsage)
    } else if c == "pr"@ && github_token(secs).len() == 0 {
        Some(Problem::NoToken)
    } else if c == "checkout"@ && checkout_words(words, 1, None, None) is None {
        Some(Problem::CheckoutUsage)
    } else {
        None
    }
}

/// The action that the invocation `words` asks for.
pub open spec fn chosen_action(secs: Seq<(Option<Seq<char>>, Props)>, words: Seq<Seq<char>>) -> ActionView {
    let c = words[0];
    if c == "status"@ {
        ActionView::Status
    } else if c == "grep"@ {
        ActionView::Grep
    } else if c == "pr"@ {
        ActionView::Pr
    } else if c == "checkout"@ {
        let (nb, t) = checkout_words(words, 1, None, None).unwrap();
        ActionView::Checkout {
            new_branch: nb,
            alias: match t {
                Some(t) => section_of(secs, alias_section(t)),
                None => None,
            },
            raw_target: match t {
                Some(t) => t,
                None => Seq::empty(),
            },
        }
    } else {
        ActionView::Generic
    }
}

/// An accepted invocation: the action, the subprojects to run it in, and the
/// GitHub token and the owner of the repositories on GitHub.
pub struct Invocation {
    pub action: Action,
    pub projects: Vec<Subproject>,
    pub token: String,
    /// The GitHub organization or user that owns the repositories: the
    /// `[github] org`, or `stackpath` where none is set.
    pub org: String,
}

/// The texts of the words.
pub open spec fn words_of(v: Seq<String>) -> Seq<Seq<char>> {
    v.map_values(|s: String| s@)
}

/// The new branch and target of a `checkout` invocation.
fn checkout_arguments(words: &Vec<String>) -> (r: Option<(Option<String>, Option<String>)>)
    ensures
        match r {
            Some((nb, t)) => checkout_words(words_of(words@), 1, None, None) == Some((opt_text(nb), opt_text(t))),
            None => checkout_words(words_of(words@), 1, None, None) is None,
        },
{
    let ghost w = words_of(words@);
    let mut new_branch: Option<String> = None;
    let mut target: Option<String> = None;
    let mut i: usize = 1;
    while i < words.len()
        invariant
            w == words_of(words@),
            1 <= i,
            checkout_words(w, 1, None, None) == checkout_words(w, i as int, opt_text(new_branch), opt_text(target)),
        decreases words@.len() - i,
    {
        assert(w[i as int] == words@[i as int]@);
        if str_eq(words[i].as_str(), "-b") {
            if i + 1 >= words.len() {
                return None;
            }
            assert(w[i + 1] == words@[i + 1]@);
            new_branch = Some(words[i + 1].clone());
            i += 2;
        } else {
            if target.is_some() {
                return None;
            }
            target = Some(words[i].clone());
            i += 1;
        }
    }
    if new_branch.is_none() && target.is_none() {
        return None;
    }
    Some((new_branch, target))
}

/// Whether the invocation asks to discover repositories.
pub fn is_discover(cmd: &str) -> (r: bool)
    ensures
        r == (cmd@ == "discover"@),
{
    str_eq(cmd, "discover")
}

/// Whether `[commands]` lists `cmd`.
fn is_supported(config: &ini::Ini, cmd: &str) -> (r: bool)
    ensures
        r == supported(ini_sections(*config), cmd@),
{
    let commands = entries_of(config, "commands");
    let ghost p = pairs(commands@);
    assert(section_of(ini_sections(*config), "commands"@) is None ==> p.len() == 0);
    let mut i: usize = 0;
    while i < commands.len()
        invariant
            i <= commands@.len(),
            p == pairs(commands@),
            p == match section_of(ini_sections(*config), "commands"@) {
                Some(x) => x,
                None => Seq::empty(),
            },
            forall|j: int| 0 <= j < i ==> #[trigger] p[j].0 != cmd@,
        decreases commands@.len() - i,
    {
        assert(p[i as int].0 == commands@[i as int].0@);
        if str_eq(commands[i].0.as_str(), cmd) {
            assert(p[i as int].0 == cmd@);
            assert(p.len() == commands@.len());
            assert(section_of(ini_sections(*config), "commands"@) is Some);
            return true;
        }
        i += 1;
    }
    false
}

/// The `[github] org`, or empty.
pub fn org_of(config: &ini::Ini) -> (r: String)
    ensures
        r@ == github_org(ini_sections(*config)),
{
    match value_of(config, "github", "org") {
        Some(o) => o,
        None => String::new(),
    }
}

/// The `[github] token`, or empty.
pub fn token_of(config: &ini::Ini) -> (r: String)
    ensures
        r@ == github_token(ini_sections(*config)),
{
    match value_of(config, "github", "token") {
        Some(t) => t,
        None => String::new(),
    }
}

/// Decides what the invocation `words` (the command, then its arguments)
/// asks for: refused when `[commands]` does not list the command, when
/// `grep` has no pattern, when `pr` lacks its two arguments or the token, or
/// when `checkout` has malformed arguments; otherwise the action (with the
/// branch alias of a checkout target resolved), the sorted subprojects, the
/// token and the owner of the repositories on GitHub.
pub fn plan(config: &ini::Ini, words: &Vec<String>) -> (r: Result<Invocation, UsageError>)
    requires
        words@.len() >= 1,
    ensures
        match r {
            Err(e) => problem(ini_sections(*config), words_of(words@)) == Some(e@),
            Ok(inv) => {
                &&& problem(ini_sections(*config), words_of(words@)) is None
                &&& inv.action@ == chosen_action(ini_sections(*config), words_of(words@))
                &&& sorted_subprojects(ini_sections(*config), inv.projects@)
                &&& inv.token@ == github_token(ini_sections(*config))
                &&& inv.org@ == pr_owner(ini_sections(*config))
            },
        },
{
    let ghost secs = ini_sections(*config);
    let ghost w = words_of(words@);
    let cmd = words[0].as_str();
    assert(w[0] == cmd@);
    proof {
        reveal_strlit("status");
        reveal_strlit("grep");
        reveal_strlit("pr");
        reveal_strlit("checkout");
        assert("pr"@.len() == 2);
        assert("checkout"@.len() == 8);
        assert("grep"@.len() == 4);
        assert("status"@.len() == 6);
    }
    if !is_supported(config, cmd) {
        return Err(UsageError::Unsupported(words[0].clone()));
    }
    let token = token_of(config);
    let configured_org = org_of(config);
    let org = if configured_org.as_str().is_empty() {
        "stackpath".to_owned()
    } else {
        configured_org
    };
    let is_grep = str_eq(cmd, "grep");
    let is_pr = str_eq(cmd, "pr");
    let is_checkout = str_eq(cmd, "checkout");
    if is_grep && words.len() == 1 {
        return Err(UsageError::NeedsArguments(words[0].clone()));
    }
    if is_pr {
        if words.len() != 3 {
            return Err(UsageError::PrUsage);
        }
        if token.as_str().is_empty() {
            return Err(UsageError::NoToken);
        }
    }
    let action = if str_eq(cmd, "status") {
        Action::Status
    } else if is_grep {
        Action::Grep
    } else if is_pr {
        Action::Pr
    } else if is_checkout {
        match checkout_arguments(words) {
            None => {
                return Err(UsageError::CheckoutUsage);
            },
            Some((new_branch, target)) => {
                let alias_map = match &target {
                    Some(t) => resolve_alias(config, t.as_str()),
                    None => None,
                };
                let raw_target = match target {
                    Some(t) => t,
                    None => String::new(),
                };
                Action::Checkout { new_branch, alias_map, raw_target }
            },
        }
    } else {
        Action::Generic
    };
    let projects = subprojects(config);
    Ok(Invocation { action, projects, token, org })
}

/// Only commands that `[commands]` lists run: any other command is refused
/// as unsupported, whatever its arguments.
pub proof fn law_unlisted_command_refused(secs: Seq<(Option<Seq<char>>, Props)>, words: Seq<Seq<char>>)
    requires
        words.len() >= 1,
        !supported(secs, words[0]),
    ensures
        problem(secs, words) == Some(Problem::Unsupported(words[0])),
{
}

/// A command that `[commands]` lists and that is none of `grep`, `pr` and
/// `checkout` is never refused.
pub proof fn law_listed_plain_command_accepted(secs: Seq<(Option<Seq<char>>, Props)>, words: Seq<Seq<char>>)
    requires
        words.len() >= 1,
        supported(secs, words[0]),
        words[0] != "grep"@,
        words[0] != "pr"@,
        words[0] != "checkout"@,
    ensures
        problem(secs, words) is None,
{
}

/// `checkout -b <branch>` creates `<branch>` from the current HEAD: when
/// `[commands]` lists `checkout`, it is accepted, with that new branch, no
/// target and no branch alias.
pub proof fn law_checkout_new_branch_alone(secs: Seq<(Option<Seq<char>>, Props)>, words: Seq<Seq<char>>, branch: Seq<char>)
    requires
        supported(secs, "checkout"@),
        words == seq!["checkout"@, "-b"@, branch],
    ensures
        problem(secs, words) is None,
        chosen_action(secs, words) == (ActionView::Checkout {
            new_branch: Some(branch),
            alias: None,
            raw_target: Seq::empty(),
        }),
{
    lemma_command_words_differ();
    assert(checkout_words(words, 3, Some(branch), None) == Some((Some(branch), None::<Seq<char>>)));
}

/// `checkout <target>` checks out `<target>`, read through the branch alias
/// of that name where the configuration has one.
pub proof fn law_checkout_target_alone(secs: Seq<(Option<Seq<char>>, Props)>, words: Seq<Seq<char>>, target: Seq<char>)
    requires
        supported(secs, "checkout"@),
        words == seq!["checkout"@, target],
        target != "-b"@,
    ensures
        problem(secs, words) is None,
        chosen_action(secs, words) == (ActionView::Checkout {
            new_branch: None,
            alias: section_of(secs, alias_section(target)),
            raw_target: target,
        }),
{
    lemma_command_words_differ();
    assert(checkout_words(words, 2, None, Some(target)) == Some((None::<Seq<char>>, Some(target))));
}

/// `checkout -b <branch> <target>` creates `<branch>` at `<target>`.
pub proof fn law_checkout_new_branch_at_target(
    secs: Seq<(Option<Seq<char>>, Props)>,
    words: Seq<Seq<char>>,
    branch: Seq<char>,
    target: Seq<char>,
)
    requires
        supported(secs, "checkout"@),
        words == seq!["checkout"@, "-b"@, branch, target],
        target != "-b"@,
    ensures
        problem(secs, words) is None,
        chosen_action(secs, words) == (ActionView::Checkout {
            new_branch: Some(branch),
            alias: section_of(secs, alias_section(target)),
            raw_target: target,
        }),
{
    lemma_command_words_differ();
    assert(checkout_words(words, 4, Some(branch), Some(target)) == Some((Some(branch), Some(target))));
    assert(checkout_words(words, 3, Some(branch), None) == Some((Some(branch), Some(target))));
}

/// `checkout` is refused with its usage when it is given neither `-b
/// <branch>` nor a target, when `-b` has no branch after it, or when a
/// second target appears.
pub proof fn law_checkout_refusals(
    secs: Seq<(Option<Seq<char>>, Props)>,
    words: Seq<Seq<char>>,
    first: Seq<char>,
    second: Seq<char>,
)
    requires
        supported(secs, "checkout"@),
        words == seq!["checkout"@] || words == seq!["checkout"@, "-b"@] || (words == seq![
            "checkout"@,
            first,
            second,
        ] && first != "-b"@ && second != "-b"@),
    ensures
        problem(secs, words) == Some(Problem::CheckoutUsage),
{
    lemma_command_words_differ();
    if words.len() == 3 {
        assert(checkout_words(words, 2, None, Some(first)) is None);
    }
}

/// The command words that the plan tells apart are different texts.
proof fn lemma_command_words_differ()
    ensures
        "checkout"@ != "grep"@,
        "checkout"@ != "pr"@,
        "checkout"@ != "status"@,
        "checkout"@ != "-b"@,
{
    reveal_strlit("checkout");
    reveal_strlit("grep");
    reveal_strlit("pr");
    reveal_strlit("status");
    reveal_strlit("-b");
    assert("checkout"@.len() != "grep"@.len());
    assert("checkout"@.len() != "pr"@.len());
    assert("checkout"@.len() != "status"@.len());
    assert("checkout"@.len() != "-b"@.len());
}

} // verus!
