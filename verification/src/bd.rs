//! Issue records as the issue source supplies them.

use vstd::prelude::*;
use vstd::string::StringExecFns;
use crate::idset::IdSet;
use crate::text::same_text;

verus! {

/// One "depends-on" edge of an issue.
#[derive(Debug, Clone)]
pub struct Dependency {
    /// Identifier of the issue depended on.
    pub id: String,
    pub title: String,
    /// Kind of the edge; `"related"` edges build no hierarchy.
    pub dependency_type: Option<String>,
}

/// One work item of the snapshot.
#[derive(Debug, Clone)]
pub struct Issue {
    pub id: String,
    pub title: String,
    pub description: Option<String>,
    /// Free-form; the value `"closed"` marks a closed issue.
    pub status: String,
    /// Lower sorts first.
    pub priority: i32,
    pub issue_type: String,
    pub created_at: String,
    pub created_by: Option<String>,
    pub updated_at: String,
    pub labels: Option<Vec<String>>,
    pub parent: Option<String>,
    pub dependencies: Option<Vec<Dependency>>,
    pub dependents: Option<Vec<Dependency>>,
    pub notes: Option<String>,
    pub design: Option<String>,
    pub acceptance_criteria: Option<String>,
}

impl Dependency {
    /// Whether the edge is a blocking one: every edge is, but one typed
    /// `"related"`.
    pub open spec fn blocks(&self) -> bool {
        match self.dependency_type {
            Some(t) => t@ != "related"@,
            None => true,
        }
    }

    /// Whether the edge is a blocking one.
    pub fn is_blocking(&self) -> (r: bool)
        ensures
            r == self.blocks(),
    {
        match &self.dependency_type {
            Some(t) => !same_text(t.as_str(), "related"),
            None => true,
        }
    }
}

impl Issue {
    /// Whether the status is the literal `"closed"`.
    pub open spec fn closed(&self) -> bool {
        self.status@ == "closed"@
    }

    /// Whether the status is the literal `"closed"`.
    pub fn is_closed(&self) -> (r: bool)
        ensures
            r == self.closed(),
    {
        same_text(self.status.as_str(), "closed")
    }

    /// The dependency edges, none where the record carries no list.
    pub open spec fn edges(&self) -> Seq<Dependency> {
        match self.dependencies {
            Some(v) => v@,
            None => Seq::empty(),
        }
    }

    /// The text that stands for the issue on the clipboard: a line with the
    /// title and, where there is a description, an empty line and the
    /// description.
    pub open spec fn clipboard(&self) -> Seq<char> {
        let head = "Title: "@ + self.title@ + "\n"@;
        match self.description {
            Some(text) => if text@.len() > 0 {
                head + "\n"@ + text@
            } else {
                head
            },
            None => head,
        }
    }

    /// The text that stands for the issue on the clipboard.
    pub fn clipboard_text(&self) -> (r: String)
        ensures
            r@ == self.clipboard(),
    {
        let mut text = "Title: ".to_owned();
        text.append(self.title.as_str());
        text.append("\n");
        match &self.description {
            Some(description) => {
                if description.as_str().unicode_len() > 0 {
                    text.append("\n");
                    text.append(description.as_str());
                }
            },
            None => {},
        }
        text
    }
}

/// A run of the issue source that takes longer than this many seconds is a
/// slow one.
pub const SLOW_THRESHOLD_SECS: u64 = 2;

/// Whether the issue source has been found slow. Once found slow it stays
/// so.
#[derive(Debug)]
pub struct DaemonHealth {
    slow: bool,
}

impl View for DaemonHealth {
    type V = bool;

    closed spec fn view(&self) -> bool {
        self.slow
    }
}

/// Whether a run that took `secs` seconds and `nanos` nanoseconds is a slow
/// one: whether it took longer than the threshold.
pub open spec fn slow_run(secs: u64, nanos: u32) -> bool {
    secs > SLOW_THRESHOLD_SECS || (secs == SLOW_THRESHOLD_SECS && nanos > 0)
}

impl DaemonHealth {
    /// The health before any run.
    pub fn new() -> (h: DaemonHealth)
        ensures
            !h@,
    {
        DaemonHealth { slow: false }
    }

    /// Takes note of a run that took `secs` seconds and `nanos` nanoseconds.
    pub fn record(&mut self, secs: u64, nanos: u32)
        ensures
            final(self)@ == (old(self)@ || slow_run(secs, nanos)),
    {
        if secs > SLOW_THRESHOLD_SECS || (secs == SLOW_THRESHOLD_SECS && nanos > 0) {
            self.slow = true;
        }
    }
}

/// Whether the issue source has been found slow.
pub fn is_daemon_slow(health: &DaemonHealth) -> (r: bool)
    ensures
        r == health@,
{
    health.slow
}

/// The arguments with which the issue source lists every issue.
pub fn list_issues() -> (args: Vec<String>)
    ensures
        args.deep_view() == seq!["list"@, "--status=all"@, "--json"@, "--limit"@, "0"@],
{
    let mut args: Vec<String> = Vec::new();
    args.push("list".to_owned());
    args.push("--status=all".to_owned());
    args.push("--json".to_owned());
    args.push("--limit".to_owned());
    args.push("0".to_owned());
    assert(args.deep_view() =~= seq!["list"@, "--status=all"@, "--json"@, "--limit"@, "0"@]);
    args
}

/// The arguments with which the issue source lists the ready issues.
pub fn get_ready_ids() -> (args: Vec<String>)
    ensures
        args.deep_view() == seq!["ready"@, "--json"@, "--limit"@, "0"@],
{
    let mut args: Vec<String> = Vec::new();
    args.push("ready".to_owned());
    args.push("--json".to_owned());
    args.push("--limit".to_owned());
    args.push("0".to_owned());
    assert(args.deep_view() =~= seq!["ready"@, "--json"@, "--limit"@, "0"@]);
    args
}

/// The arguments with which the issue source shows the issue `id` in full.
pub fn get_issue_details(id: &str) -> (args: Vec<String>)
    ensures
        args.deep_view() == seq!["show"@, id@, "--json"@],
{
    let mut args: Vec<String> = Vec::new();
    args.push("show".to_owned());
    args.push(id.to_owned());
    args.push("--json".to_owned());
    assert(args.deep_view() =~= seq!["show"@, id@, "--json"@]);
    args
}

/// The arguments with which the issue source shows in full every issue of
/// `basic`, in order; none where `basic` is empty, for which the source is
/// not run again.
pub fn list_issues_with_details(basic: &Vec<Issue>) -> (r: Option<Vec<String>>)
    ensures
        match r {
            Some(args) => basic.len() > 0 && args.deep_view() == seq!["show"@, "--json"@]
                + basic@.map_values(|i: Issue| i.id@),
            None => basic.len() == 0,
        },
{
    let n = basic.len();
    if n == 0 {
        return None;
    }
    let mut args: Vec<String> = Vec::new();
    args.push("show".to_owned());
    args.push("--json".to_owned());
    let mut k: usize = 0;
    while k < n
        invariant
            n == basic.len(),
            k <= n,
            args.len() == k + 2,
            args[0]@ == "show"@,
            args[1]@ == "--json"@,
            forall|j: int| 0 <= j < k ==> args[j + 2]@ == basic[j].id@,
        decreases n - k,
    {
        args.push(basic[k].id.clone());
        k += 1;
    }
    assert(args.deep_view() =~= seq!["show"@, "--json"@] + basic@.map_values(|i: Issue| i.id@));
    Some(args)
}

/// The arguments with which the issue source gives the issue `id` the title
/// `title`.
pub fn update_issue_title(id: &str, title: &str) -> (args: Vec<String>)
    ensures
        args.deep_view() == seq!["update"@, id@, "--title"@, title@],
{
    let mut args: Vec<String> = Vec::new();
    args.push("update".to_owned());
    args.push(id.to_owned());
    args.push("--title".to_owned());
    args.push(title.to_owned());
    assert(args.deep_view() =~= seq!["update"@, id@, "--title"@, title@]);
    args
}

/// The arguments with which the issue source gives the issue `id` the
/// description `description`.
pub fn update_issue_description(id: &str, description: &str) -> (args: Vec<String>)
    ensures
        args.deep_view() == seq!["update"@, id@, "--description"@, description@],
{
    let mut args: Vec<String> = Vec::new();
    args.push("update".to_owned());
    args.push(id.to_owned());
    args.push("--description".to_owned());
    args.push(description.to_owned());
    assert(args.deep_view() =~= seq!["update"@, id@, "--description"@, description@]);
    args
}

/// What a run of the issue source that was to change an issue came to: a
/// success is `Ok`, a failure the message that names what the source wrote
/// to its error stream.
pub fn update_outcome(success: bool, stderr: &str) -> (r: Result<(), String>)
    ensures
        match r {
            Ok(_) => success,
            Err(message) => !success && message@ == "bd update failed: "@ + stderr@,
        },
{
    if success {
        Ok(())
    } else {
        let mut message = "bd update failed: ".to_owned();
        message.append(stderr);
        Err(message)
    }
}

/// What a run of the issue source that was to list issues came to, like
/// `update_outcome`.
pub fn list_outcome(success: bool, stderr: &str) -> (r: Result<(), String>)
    ensures
        match r {
            Ok(_) => success,
            Err(message) => !success && message@ == "bd list failed: "@ + stderr@,
        },
{
    if success {
        Ok(())
    } else {
        let mut message = "bd list failed: ".to_owned();
        message.append(stderr);
        Err(message)
    }
}

/// The identifiers of `issues`, in order.
pub open spec fn issue_ids(issues: Seq<Issue>) -> Seq<Seq<char>> {
    issues.map_values(|i: Issue| i.id@)
}

/// The ready identifiers, given what the run that lists the ready issues
/// came to: the identifiers of the issues listed, where the run succeeded
/// and what it printed could be read; none otherwise.
pub fn ready_ids_of(success: bool, listed: Option<Vec<Issue>>) -> (ready: IdSet)
    ensures
        ready@ == match listed {
            Some(issues) => if success {
                issue_ids(issues@).to_set()
            } else {
                Set::empty()
            },
            None => Set::empty(),
        },
{
    let mut ready = IdSet::new();
    if !success {
        return ready;
    }
    match listed {
        Some(issues) => {
            let n = issues.len();
            let mut k: usize = 0;
            assert(issue_ids(issues@).subrange(0, 0).to_set() =~= Set::<Seq<char>>::empty());
            while k < n
                invariant
                    n == issues.len(),
                    k <= n,
                    ready@ == issue_ids(issues@).subrange(0, k as int).to_set(),
                decreases n - k,
            {
                let ghost before = issue_ids(issues@).subrange(0, k as int);
                ready.insert(issues[k].id.clone());
                proof {
                    assert(issue_ids(issues@).subrange(0, k + 1) =~= before.push(
                        issues[k as int].id@,
                    ));
                    before.lemma_push_to_set_commute(issues[k as int].id@);
                }
                k += 1;
            }
            assert(issue_ids(issues@).subrange(0, n as int) =~= issue_ids(issues@));
            ready
        },
        None => ready,
    }
}

/// The issue in full, given what the run that shows it came to: the first
/// issue shown, where the run succeeded and what it printed could be read.
pub fn details_of(success: bool, shown: Option<Vec<Issue>>) -> (r: Option<Issue>)
    ensures
        r == match shown {
            Some(issues) => if success && issues.len() > 0 {
                Some(issues[0])
            } else {
                None
            },
            None => None,
        },
{
    if !success {
        return None;
    }
    match shown {
        Some(issues) => {
            let mut it = issues;
            if it.len() > 0 {
                Some(it.swap_remove(0))
            } else {
                None
            }
        },
        None => None,
    }
}

/// The issues to go on with, given the issues as listed and what the run
/// that shows them in full came to: the issues in full, where that run
/// succeeded and what it printed could be read; the issues as listed
/// otherwise.
pub fn detailed_or_basic(basic: Vec<Issue>, success: bool, detailed: Option<Vec<Issue>>) -> (r:
    Vec<Issue>)
    ensures
        r == match detailed {
            Some(issues) => if success {
                issues
            } else {
                basic
            },
            None => basic,
        },
{
    if !success {
        return basic;
    }
    match detailed {
        Some(issues) => issues,
        None => basic,
    }
}

} // verus!
