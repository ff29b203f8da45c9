//! Commands and their execution: the decisions of the per-command loop,
//! taken one event at a time. The caller performs the actions (listing
//! members, reading the stop flag, fetching, saving, writing the audit
//! record) and reports what happened.
use vstd::prelude::*;
use vstd::string::*;
use crate::generator::{Member, MemberV};
use crate::id::{id_text, ulid_text};
use crate::recursion::{get_category_replacers, RecursionReplacer};
use crate::replacer::category_rules;
use crate::text::{joined, strs};

verus! {

#[derive(Clone, Copy, Debug, PartialEq, Eq, Structural)]
pub enum CommandType {
    Reassignment,
    Remove,
    Duplicate,
}

#[derive(Debug, PartialEq, Eq)]
pub enum OperationStatus {
    Done,
    Duplicated,
    Removed,
    Skipped,
    Error(String),
}

pub enum OperationStatusV {
    Done,
    Duplicated,
    Removed,
    Skipped,
    Error(Seq<char>),
}

impl View for OperationStatus {
    type V = OperationStatusV;

    open spec fn view(&self) -> OperationStatusV {
        match self {
            OperationStatus::Done => OperationStatusV::Done,
            OperationStatus::Duplicated => OperationStatusV::Duplicated,
            OperationStatus::Removed => OperationStatusV::Removed,
            OperationStatus::Skipped => OperationStatusV::Skipped,
            OperationStatus::Error(e) => OperationStatusV::Error(e@),
        }
    }
}

#[verifier::external_type_specification]
#[verifier::external_body]
#[verifier::reject_recursive_types(K)]
#[verifier::reject_recursive_types(V)]
#[verifier::reject_recursive_types(S)]
pub struct ExIndexMap<K, V, S>(indexmap::IndexMap<K, V, S>);

/// The page statuses a map holds, in its order.
pub uninterp spec fn statuses_of(m: indexmap::IndexMap<String, OperationStatus>) -> Seq<(Seq<char>, OperationStatusV)>;

/// Relies on `indexmap::IndexMap::new`: an empty map.
#[verifier::external_body]
fn new_statuses() -> (r: indexmap::IndexMap<String, OperationStatus>)
    ensures
        statuses_of(r) == Seq::<(Seq<char>, OperationStatusV)>::empty(),
{
    indexmap::IndexMap::new()
}

/// Relies on `indexmap::IndexMap::insert`: an existing key keeps its place
/// and takes the new value; a new key goes last.
#[verifier::external_body]
fn insert_status(m: &mut indexmap::IndexMap<String, OperationStatus>, title: String, status: OperationStatus)
    ensures
        statuses_of(*final(m)) == with_status(statuses_of(*old(m)), title@, status@),
{
    m.insert(title, status);
}

/// Relies on `indexmap::IndexMap::len`: the number of entries.
#[verifier::external_body]
fn statuses_len(m: &indexmap::IndexMap<String, OperationStatus>) -> (r: usize)
    ensures
        r == statuses_of(*m).len(),
{
    m.len()
}

#[derive(Debug, PartialEq, Eq)]
pub enum CommandStatus {
    EmergencyStopped,
    Done { id: u128, statuses: indexmap::IndexMap<String, OperationStatus> },
    Error { id: u128, statuses: indexmap::IndexMap<String, OperationStatus>, message: String },
    Skipped,
    CategoryEmpty,
}

/// A parsed command.
pub struct Command {
    pub dry_run: bool,
    pub id: u128,
    pub from: String,
    pub to: Vec<String>,
    pub discussion_link: String,
    pub namespaces: Vec<u32>,
    pub command_type: CommandType,
}

/// `[[:a]],[[:b]],...`
pub open spec fn to_links(to: Seq<Seq<char>>) -> Seq<char>
    decreases to.len(),
{
    if to.len() == 0 {
        Seq::empty()
    } else if to.len() == 1 {
        "[[:"@ + to[0] + "]]"@
    } else {
        to_links(to.drop_last()) + ","@ + "[[:"@ + to.last() + "]]"@
    }
}

/// The edit summary of a command.
pub open spec fn summary_text(t: CommandType, from: Seq<char>, to: Seq<Seq<char>>, link: Seq<char>, id: u128) -> Seq<char> {
    let tail = "([["@ + link + "|議論場所]]) (ID: "@ + ulid_text(id) + ")"@;
    match t {
        CommandType::Reassignment => "BOT: [[:"@ + from + "]]から"@ + to_links(to) + "へ変更 "@ + tail,
        CommandType::Duplicate => "BOT: [[:"@ + from + "]]を"@ + to_links(to) + "へ複製 "@ + tail,
        CommandType::Remove => "BOT: [[:"@ + from + "]]を除去 "@ + tail,
    }
}

fn links_text(to: &Vec<String>) -> (r: String)
    ensures
        r@ == to_links(strs(to@)),
{
    let ghost tv = strs(to@);
    let mut s = String::new();
    let mut k: usize = 0;
    while k < to.len()
        invariant
            k <= to.len(),
            tv == strs(to@),
            s@ == to_links(tv.take(k as int)),
        decreases to.len() - k,
    {
        assert(tv.take(k + 1).drop_last() =~= tv.take(k as int));
        assert(tv.take(k + 1).last() == to@[k as int]@);
        if k > 0 {
            s.append(",");
        }
        s.append("[[:");
        s.append(to[k].as_str());
        s.append("]]");
        assert(k == 0 ==> s@ =~= "[[:"@ + tv.take(k + 1)[0] + "]]"@);
        k = k + 1;
    }
    assert(tv.take(to.len() as int) =~= tv);
    s
}

impl Command {
    /// The rules this command applies, wrapped in the recursive descent.
    pub fn replacers(&self) -> (r: RecursionReplacer)
        ensures
            r.replacers@ == category_rules(self.from@, strs(self.to@)),
    {
        get_category_replacers(self.from.clone(), self.to.clone())
    }

    /// The summary that edits made for this command carry.
    pub fn summary(&self) -> (r: String)
        ensures
            r@ == summary_text(self.command_type, self.from@, strs(self.to@), self.discussion_link@, self.id),
    {
        let mut s = joined("BOT: [[:", self.from.as_str());
        match self.command_type {
            CommandType::Reassignment => {
                s.append("]]から");
                let l = links_text(&self.to);
                s.append(l.as_str());
                s.append("へ変更 ");
            },
            CommandType::Duplicate => {
                s.append("]]を");
                let l = links_text(&self.to);
                s.append(l.as_str());
                s.append("へ複製 ");
            },
            CommandType::Remove => {
                s.append("]]を除去 ");
            },
        }
        s.append("([[");
        s.append(self.discussion_link.as_str());
        s.append("|議論場所]]) (ID: ");
        let idt = id_text(self.id);
        s.append(idt.as_str());
        s.append(")");
        s
    }

    /// A fresh run of this command.
    pub fn execution(&self) -> (r: Execution)
        ensures
            r@.id == self.id,
            r@.command_type == self.command_type,
            r@.dry_run == self.dry_run,
            r@.statuses == Seq::<(Seq<char>, OperationStatusV)>::empty(),
            !r@.yielded,
    {
        Execution::new(self.id, self.command_type, self.dry_run)
    }
}

/// The status a saved page gets, by the kind of command.
pub open spec fn success_status(t: CommandType) -> OperationStatusV {
    match t {
        CommandType::Reassignment => OperationStatusV::Done,
        CommandType::Duplicate => OperationStatusV::Duplicated,
        CommandType::Remove => OperationStatusV::Removed,
    }
}

pub fn success_of(t: CommandType) -> (r: OperationStatus)
    ensures
        r@ == success_status(t),
{
    match t {
        CommandType::Reassignment => OperationStatus::Done,
        CommandType::Duplicate => OperationStatus::Duplicated,
        CommandType::Remove => OperationStatus::Removed,
    }
}

/// What happened to a page at the last action.
#[derive(Clone, Copy, Debug)]
pub enum PageEvent {
    FetchFailed,
    RewriteFailed,
    Rewritten { changed: bool },
    SaveFailed,
    Saved { new_revision: Option<u64> },
    AuditFailed,
    Audited,
}

/// What to do next with a page.
pub enum PageStep {
    Save,
    Audit { new_revision: u64 },
    Finish(OperationStatus),
}

pub enum PageStepV {
    Save,
    Audit { new_revision: u64 },
    Finish(OperationStatusV),
}

impl View for PageStep {
    type V = PageStepV;

    open spec fn view(&self) -> PageStepV {
        match self {
            PageStep::Save => PageStepV::Save,
            PageStep::Audit { new_revision } => PageStepV::Audit { new_revision: *new_revision },
            PageStep::Finish(s) => PageStepV::Finish(s@),
        }
    }
}

pub const FETCH_FAILED: &'static str = "ページの取得中にエラーが発生しました";

pub const REWRITE_FAILED: &'static str = "カテゴリの変更中にエラーが発生しました";

pub const SAVE_FAILED: &'static str = "ページの保存に失敗しました";

pub const NO_REVISION: &'static str = "新しい版のIDを取得できませんでした";

pub const AUDIT_FAILED: &'static str = "データベースへのオペレーション保存に失敗しました";

pub const STORE_FAILED: &'static str = "コマンドをデータベースに保存できませんでした";

/// The decision after each step of a page: a failure ends the page with an
/// error, an unchanged page is skipped, a changed one is saved (unless this
/// is a dry run), and a saved one is recorded before it counts as done.
pub open spec fn page_next(t: CommandType, dry_run: bool, e: PageEvent) -> PageStepV {
    match e {
        PageEvent::FetchFailed => PageStepV::Finish(OperationStatusV::Error(FETCH_FAILED@)),
        PageEvent::RewriteFailed => PageStepV::Finish(OperationStatusV::Error(REWRITE_FAILED@)),
        PageEvent::Rewritten { changed } => if !changed {
            PageStepV::Finish(OperationStatusV::Skipped)
        } else if dry_run {
            PageStepV::Finish(success_status(t))
        } else {
            PageStepV::Save
        },
        PageEvent::SaveFailed => PageStepV::Finish(OperationStatusV::Error(SAVE_FAILED@)),
        PageEvent::Saved { new_revision } => match new_revision {
            Some(r) => PageStepV::Audit { new_revision: r },
            None => PageStepV::Finish(OperationStatusV::Error(NO_REVISION@)),
        },
        PageEvent::AuditFailed => PageStepV::Finish(OperationStatusV::Error(AUDIT_FAILED@)),
        PageEvent::Audited => PageStepV::Finish(success_status(t)),
    }
}

/// What to do with an item of the member listing.
pub enum MemberStep {
    Stop,
    Ignore,
    Process(String),
}

/// The state of one command's run.
pub struct Execution {
    pub id: u128,
    pub command_type: CommandType,
    pub dry_run: bool,
    statuses: indexmap::IndexMap<String, OperationStatus>,
    yielded: bool,
}

pub struct ExecutionV {
    pub id: u128,
    pub command_type: CommandType,
    pub dry_run: bool,
    pub statuses: Seq<(Seq<char>, OperationStatusV)>,
    pub yielded: bool,
}

impl View for Execution {
    type V = ExecutionV;

    closed spec fn view(&self) -> ExecutionV {
        ExecutionV {
            id: self.id,
            command_type: self.command_type,
            dry_run: self.dry_run,
            statuses: statuses_of(self.statuses),
            yielded: self.yielded,
        }
    }
}

/// Index of the entry for `title`, or -1.
pub open spec fn entry_of(s: Seq<(Seq<char>, OperationStatusV)>, title: Seq<char>) -> int
    decreases s.len(),
{
    if s.len() == 0 {
        -1
    } else {
        let p = entry_of(s.drop_last(), title);
        if p >= 0 { p } else if s.last().0 == title { s.len() - 1 } else { -1 }
    }
}

/// The statuses with `title`'s entry set to `st`: in place where the page
/// already has one, else at the end.
pub open spec fn with_status(s: Seq<(Seq<char>, OperationStatusV)>, title: Seq<char>, st: OperationStatusV) -> Seq<(Seq<char>, OperationStatusV)> {
    let i = entry_of(s, title);
    if i >= 0 { s.update(i, (title, st)) } else { s.push((title, st)) }
}

/// How a run that went through the whole listing ends.
pub open spec fn final_status(v: ExecutionV) -> Option<(u128, Seq<(Seq<char>, OperationStatusV)>)> {
    if v.yielded && v.statuses.len() > 0 { Some((v.id, v.statuses)) } else { None }
}

impl Execution {
    pub fn new(id: u128, command_type: CommandType, dry_run: bool) -> (r: Execution)
        ensures
            r@.id == id,
            r@.command_type == command_type,
            r@.dry_run == dry_run,
            r@.statuses == Seq::<(Seq<char>, OperationStatusV)>::empty(),
            !r@.yielded,
    {
        Execution { id, command_type, dry_run, statuses: new_statuses(), yielded: false }
    }

    /// The item that the listing yielded, given the stop flag read just
    /// before: a set flag stops the run; an error of the listing is passed
    /// over; a page is to be processed.
    pub fn on_member(&mut self, stopped: bool, member: &Member) -> (r: MemberStep)
        ensures
            stopped ==> r is Stop && final(self)@ == old(self)@,
            !stopped ==> final(self)@ == (ExecutionV { yielded: true, ..old(self)@ }),
            !stopped ==> match member@ {
                MemberV::Failed(_) => r is Ignore,
                MemberV::Page(t) => (r matches MemberStep::Process(x) && x@ == t),
            },
    {
        if stopped {
            return MemberStep::Stop;
        }
        self.yielded = true;
        match member {
            Member::Failed(_) => MemberStep::Ignore,
            Member::Page(t) => MemberStep::Process(t.clone()),
        }
    }

    /// The next step for a page after `event`.
    pub fn page_step(&self, event: PageEvent) -> (r: PageStep)
        ensures
            r@ == page_next(self@.command_type, self@.dry_run, event),
    {
        match event {
            PageEvent::FetchFailed => PageStep::Finish(OperationStatus::Error(FETCH_FAILED.to_string())),
            PageEvent::RewriteFailed => PageStep::Finish(OperationStatus::Error(REWRITE_FAILED.to_string())),
            PageEvent::Rewritten { changed } => if !changed {
                PageStep::Finish(OperationStatus::Skipped)
            } else if self.dry_run {
                PageStep::Finish(success_of(self.command_type))
            } else {
                PageStep::Save
            },
            PageEvent::SaveFailed => PageStep::Finish(OperationStatus::Error(SAVE_FAILED.to_string())),
            PageEvent::Saved { new_revision } => match new_revision {
                Some(r) => PageStep::Audit { new_revision: r },
                None => PageStep::Finish(OperationStatus::Error(NO_REVISION.to_string())),
            },
            PageEvent::AuditFailed => PageStep::Finish(OperationStatus::Error(AUDIT_FAILED.to_string())),
            PageEvent::Audited => PageStep::Finish(success_of(self.command_type)),
        }
    }

    /// Records the final status of a page.
    pub fn record(&mut self, title: String, status: OperationStatus)
        ensures
            final(self)@ == (ExecutionV {
                statuses: with_status(old(self)@.statuses, title@, status@),
                ..old(self)@
            }),
    {
        insert_status(&mut self.statuses, title, status);
    }

    /// How the run ends once the listing is exhausted: `CategoryEmpty` where
    /// it yielded nothing, `Skipped` where no page got a status, else `Done`
    /// with every page's status.
    pub fn finish(self) -> (r: CommandStatus)
        ensures
            !self@.yielded ==> r is CategoryEmpty,
            self@.yielded && self@.statuses.len() == 0 ==> r is Skipped,
            self@.yielded && self@.statuses.len() > 0 ==> (r matches CommandStatus::Done { id, statuses }
                && id == self@.id && statuses_of(statuses) == self@.statuses),
    {
        if !self.yielded {
            CommandStatus::CategoryEmpty
        } else if statuses_len(&self.statuses) == 0 {
            CommandStatus::Skipped
        } else {
            CommandStatus::Done { id: self.id, statuses: self.statuses }
        }
    }

    /// The run ends before any page because the command could not be stored.
    pub fn setup_failed(self, reason: &str) -> (r: CommandStatus)
        ensures
            r matches CommandStatus::Error { id, statuses, message } && id == self@.id
                && statuses_of(statuses).len() == 0 && message@ == STORE_FAILED@ + ": "@ + reason@,
    {
        let sep = ": ";
        let mut m = joined(STORE_FAILED, sep);
        m.append(reason);
        CommandStatus::Error { id: self.id, statuses: new_statuses(), message: m }
    }
}

} // verus!
