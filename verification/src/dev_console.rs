//! The development console's `hoplite.dev` service: which operation a call
//! asks for, the registry of the servers it manages, and the values it
//! answers with. Starting, signalling and reading logs stay with the
//! caller, which hands back what they found.

use vstd::prelude::*;
use crate::hal::{HalValue, field, field_value, map_entries, number_field, number_field_of};
use crate::text::{debug_quoted, debug_text, owned, push_str, same_text};
use crate::text_set::{
    lemma_less_asymmetric, lemma_less_irreflexive, lemma_less_total, lemma_less_transitive,
    text_before, text_less,
};

verus! {

// ---------------------------------------------------------------------------
// Operations
// ---------------------------------------------------------------------------

/// An operation of the `hoplite.dev` service.
#[derive(Debug)]
pub enum DevOperation {
    /// `start` or, where `restart` is set, `restart`.
    Start { app: String, options: HalValue, restart: bool },
    Stop { app: String },
    Status { app: String },
    ListAll,
    Logs { app: String, options: HalValue },
}

pub open spec fn app_var_message() -> Seq<char> {
    "development servers must be identified by an app Var such as #'app/app"@
}

/// The app a Var names: its symbol.
pub open spec fn app_name_spec(value: HalValue) -> Result<Seq<char>, Seq<char>> {
    match value {
        HalValue::Var(symbol, _) => Ok(symbol@),
        _ => Err(app_var_message()),
    }
}

/// The app and the options map of `start`, `restart` and `logs`.
pub open spec fn app_options_spec(args: Seq<HalValue>) -> Result<(Seq<char>, Option<HalValue>), Seq<char>> {
    if args.len() == 0 {
        Err("operation requires an app Var"@)
    } else {
        match app_name_spec(args[0]) {
            Err(m) => Err(m),
            Ok(app) => if args.len() < 2 {
                Ok((app, None))
            } else if map_entries(args[1]) is None {
                Err("development options must be a map"@)
            } else {
                Ok((app, Some(args[1])))
            },
        }
    }
}

pub enum OperationModel {
    Start { app: Seq<char>, options: Option<HalValue>, restart: bool },
    Stop { app: Seq<char> },
    Status { app: Seq<char> },
    ListAll,
    Logs { app: Seq<char>, options: Option<HalValue> },
}

pub open spec fn required_app(args: Seq<HalValue>, missing: Seq<char>) -> Result<Seq<char>, Seq<char>> {
    if args.len() == 0 {
        Err(missing)
    } else {
        app_name_spec(args[0])
    }
}

/// The operation a call of the service asks for, or why it asks for none.
pub open spec fn operation_spec(method: Seq<char>, args: Seq<HalValue>) -> Result<OperationModel, Seq<char>> {
    if method == "start"@ || method == "restart"@ {
        match app_options_spec(args) {
            Err(m) => Err(m),
            Ok((app, options)) => Ok(OperationModel::Start { app, options, restart: method == "restart"@ }),
        }
    } else if method == "stop"@ {
        match required_app(args, "dev/stop requires an app Var"@) {
            Err(m) => Err(m),
            Ok(app) => Ok(OperationModel::Stop { app }),
        }
    } else if method == "status"@ {
        match required_app(args, "dev/status requires an app Var"@) {
            Err(m) => Err(m),
            Ok(app) => Ok(OperationModel::Status { app }),
        }
    } else if method == "list-all"@ && args.len() == 0 {
        Ok(OperationModel::ListAll)
    } else if method == "logs"@ {
        match app_options_spec(args) {
            Err(m) => Err(m),
            Ok((app, options)) => Ok(OperationModel::Logs { app, options }),
        }
    } else {
        Err("unknown hoplite.dev operation "@ + debug_text(method))
    }
}

/// The options of an operation: the map given, or no options (`None`).
pub open spec fn options_view(options: HalValue, given: Option<HalValue>) -> bool {
    match given {
        Some(v) => options == v,
        None => options matches HalValue::Mapping(entries) && entries@.len() == 0,
    }
}

pub open spec fn operation_matches(r: Result<DevOperation, String>, model: Result<OperationModel, Seq<char>>) -> bool {
    match (r, model) {
        (Ok(DevOperation::Start { app, options, restart }), Ok(OperationModel::Start { app: a, options: o, restart: s })) =>
            app@ == a && options_view(options, o) && restart == s,
        (Ok(DevOperation::Stop { app }), Ok(OperationModel::Stop { app: a })) => app@ == a,
        (Ok(DevOperation::Status { app }), Ok(OperationModel::Status { app: a })) => app@ == a,
        (Ok(DevOperation::ListAll), Ok(OperationModel::ListAll)) => true,
        (Ok(DevOperation::Logs { app, options }), Ok(OperationModel::Logs { app: a, options: o })) => app@ == a
            && options_view(options, o),
        (Err(m), Err(e)) => m@ == e,
        _ => false,
    }
}

fn app_name(value: &HalValue) -> (r: Result<String, String>)
    ensures
        match app_name_spec(*value) {
            Ok(app) => r matches Ok(a) && a@ == app,
            Err(m) => r matches Err(e) && e@ == m,
        },
{
    match value {
        HalValue::Var(symbol, _) => Ok(symbol.clone()),
        _ => Err(owned("development servers must be identified by an app Var such as #'app/app")),
    }
}

fn app_options(args: Vec<HalValue>) -> (r: Result<(String, HalValue), String>)
    ensures
        match app_options_spec(args@) {
            Ok((app, options)) => r matches Ok((a, o)) && a@ == app && options_view(o, options),
            Err(m) => r matches Err(e) && e@ == m,
        },
{
    if args.len() == 0 {
        return Err(owned("operation requires an app Var"));
    }
    let app = match app_name(&args[0]) {
        Ok(app) => app,
        Err(m) => return Err(m),
    };
    let mut args = args;
    let ghost original = args@;
    if args.len() < 2 {
        return Ok((app, HalValue::Mapping(Vec::new())));
    }
    let options = args.remove(1);
    assert(options == original[1]);
    match &options {
        HalValue::Mapping(_) => Ok((app, options)),
        _ => Err(owned("development options must be a map")),
    }
}

/// The operation a call of `hoplite.dev` asks for.
pub fn dev_operation(method: &str, args: Vec<HalValue>) -> (r: Result<DevOperation, String>)
    ensures
        operation_matches(r, operation_spec(method@, args@)),
{
    if same_text(method, "start") || same_text(method, "restart") {
        let restart = same_text(method, "restart");
        match app_options(args) {
            Ok((app, options)) => Ok(DevOperation::Start { app, options, restart }),
            Err(m) => Err(m),
        }
    } else if same_text(method, "stop") {
        if args.len() == 0 {
            return Err(owned("dev/stop requires an app Var"));
        }
        match app_name(&args[0]) {
            Ok(app) => Ok(DevOperation::Stop { app }),
            Err(m) => Err(m),
        }
    } else if same_text(method, "status") {
        if args.len() == 0 {
            return Err(owned("dev/status requires an app Var"));
        }
        match app_name(&args[0]) {
            Ok(app) => Ok(DevOperation::Status { app }),
            Err(m) => Err(m),
        }
    } else if same_text(method, "list-all") && args.len() == 0 {
        Ok(DevOperation::ListAll)
    } else if same_text(method, "logs") {
        match app_options(args) {
            Ok((app, options)) => Ok(DevOperation::Logs { app, options }),
            Err(m) => Err(m),
        }
    } else {
        let mut message = owned("unknown hoplite.dev operation ");
        push_str(&mut message, debug_quoted(method).as_str());
        Err(message)
    }
}

// ---------------------------------------------------------------------------
// Options
// ---------------------------------------------------------------------------

/// The text (a string, keyword or symbol) of an option.
pub open spec fn option_text_spec(options: HalValue, name: Seq<char>) -> Option<Seq<char>> {
    match field_value(options, name) {
        Some(HalValue::String(s)) => Some(s@),
        Some(HalValue::Keyword(s)) => Some(s@),
        Some(HalValue::Symbol(s)) => Some(s@),
        _ => None,
    }
}

pub fn option_text(options: &HalValue, name: &str) -> (r: Option<String>)
    ensures
        match r {
            Some(t) => option_text_spec(*options, name@) == Some(t@),
            None => option_text_spec(*options, name@) is None,
        },
{
    match field(options, name) {
        Some(HalValue::String(s)) => Some(s.clone()),
        Some(HalValue::Keyword(s)) => Some(s.clone()),
        Some(HalValue::Symbol(s)) => Some(s.clone()),
        _ => None,
    }
}

/// Where a start runs: the project directory given, if any; the profile
/// given, if any; and whether the mode is `prod`.
pub fn start_options(options: &HalValue) -> (r: (Option<String>, Option<String>, bool))
    ensures
        match r.0 {
            Some(t) => option_text_spec(*options, "project"@) == Some(t@),
            None => option_text_spec(*options, "project"@) is None,
        },
        match r.1 {
            Some(t) => option_text_spec(*options, "profile"@) == Some(t@),
            None => option_text_spec(*options, "profile"@) is None,
        },
        r.2 == (option_text_spec(*options, "mode"@) == Some("prod"@)),
{
    let project = option_text(options, "project");
    let profile = option_text(options, "profile");
    let production = match option_text(options, "mode") {
        Some(mode) => same_text(mode.as_str(), "prod"),
        None => false,
    };
    (project, profile, production)
}

/// How many bytes of the log `logs` shows: `:bytes`, 16384 where not
/// given, none where negative.
pub open spec fn log_limit(options: HalValue) -> usize {
    match number_field(options, "bytes"@) {
        Some(n) => if n < 0 {
            0usize
        } else {
            n as usize
        },
        None => 16384usize,
    }
}

/// Where the shown tail of a log of `length` bytes starts.
pub fn log_tail_start(length: usize, options: &HalValue) -> (start: usize)
    ensures
        start == if length > log_limit(*options) {
            (length - log_limit(*options)) as usize
        } else {
            0usize
        },
{
    let limit: usize = match number_field_of(options, "bytes") {
        Some(n) => if n < 0 {
            0
        } else {
            n as usize
        },
        None => 16384,
    };
    if length > limit {
        length - limit
    } else {
        0
    }
}

// ---------------------------------------------------------------------------
// The registry of managed servers
// ---------------------------------------------------------------------------

/// A server the console started.
#[derive(Debug)]
pub struct ServerRecord {
    pub app: String,
    /// The project directory, as displayed.
    pub project: String,
    pub profile: Option<String>,
    pub production: bool,
}

pub struct RecordModel {
    pub app: Seq<char>,
    pub project: Seq<char>,
    pub profile: Option<Seq<char>>,
    pub production: bool,
}

impl View for ServerRecord {
    type V = RecordModel;

    open spec fn view(&self) -> RecordModel {
        RecordModel {
            app: self.app@,
            project: self.project@,
            profile: match self.profile {
                Some(p) => Some(p@),
                None => None,
            },
            production: self.production,
        }
    }
}

impl ServerRecord {
    pub fn duplicate(&self) -> (copy: Self)
        ensures
            copy@ == self@,
    {
        ServerRecord {
            app: self.app.clone(),
            project: self.project.clone(),
            profile: match &self.profile {
                Some(p) => Some(p.clone()),
                None => None,
            },
            production: self.production,
        }
    }
}

/// Records in increasing order of their apps, so one per app.
pub open spec fn sorted_records(records: Seq<RecordModel>) -> bool {
    forall|i: int, j: int| 0 <= i < j < records.len() ==> text_less(#[trigger] records[i].app, #[trigger] records[j].app)
}

/// The servers the console manages, one per app, in app order.
#[derive(Debug)]
pub struct DevConsole {
    servers: Vec<ServerRecord>,
}

pub open spec fn record_models(records: Seq<ServerRecord>) -> Seq<RecordModel> {
    records.map_values(|r: ServerRecord| r@)
}

impl View for DevConsole {
    type V = Seq<RecordModel>;

    closed spec fn view(&self) -> Seq<RecordModel> {
        record_models(self.servers@)
    }
}

impl DevConsole {
    #[verifier::type_invariant]
    spec fn ordered(self) -> bool {
        sorted_records(record_models(self.servers@))
    }

    pub fn new() -> (console: Self)
        ensures
            console@ == Seq::<RecordModel>::empty(),
    {
        let console = DevConsole { servers: Vec::new() };
        assert(console@ =~= Seq::<RecordModel>::empty());
        console
    }

    /// The managed servers in app order.
    pub fn records(&self) -> (records: &Vec<ServerRecord>)
        ensures
            record_models(records@) == self@,
            sorted_records(self@),
    {
        proof {
            use_type_invariant(self);
        }
        &self.servers
    }

    /// The record of an app's server.
    pub fn get(&self, app: &str) -> (r: Option<&ServerRecord>)
        ensures
            match r {
                Some(record) => self@.contains(record@) && record@.app == app@,
                None => forall|i: int| 0 <= i < self@.len() ==> (#[trigger] self@[i]).app != app@,
            },
    {
        let mut i: usize = 0;
        while i < self.servers.len()
            invariant
                i <= self.servers@.len(),
                self@ == record_models(self.servers@),
                forall|j: int| 0 <= j < i ==> (#[trigger] self@[j]).app != app@,
            decreases self.servers@.len() - i,
        {
            if same_text(self.servers[i].app.as_str(), app) {
                assert(self@[i as int] == self.servers@[i as int]@);
                return Some(&self.servers[i]);
            }
            i = i + 1;
        }
        None
    }

    /// Records a server, replacing the record of its app.
    pub fn insert(&mut self, record: ServerRecord)
        ensures
            final(self)@.contains(record@),
            forall|r: RecordModel| #[trigger] final(self)@.contains(r) ==> r == record@ || (r.app != record@.app && old(self)@.contains(r)),
            forall|r: RecordModel| #[trigger] old(self)@.contains(r) && r.app != record@.app ==> final(self)@.contains(r),
            sorted_records(final(self)@),
    {
        proof {
            use_type_invariant(&*self);
        }
        let ghost before = self@;
        let mut i: usize = 0;
        while i < self.servers.len() && text_before(self.servers[i].app.as_str(), record.app.as_str())
            invariant
                i <= self.servers@.len(),
                before == record_models(self.servers@),
                sorted_records(before),
                forall|j: int| 0 <= j < i ==> text_less(#[trigger] before[j].app, record@.app),
            decreases self.servers@.len() - i,
        {
            i = i + 1;
        }
        let replace = i < self.servers.len() && same_text(self.servers[i].app.as_str(), record.app.as_str());
        let ghost updated = if replace {
            before.update(i as int, record@)
        } else {
            before.insert(i as int, record@)
        };
        proof {
            if i < before.len() {
                lemma_less_total(before[i as int].app, record@.app);
            }
            assert forall|j: int| i <= j < before.len() && !(replace && j == i) implies text_less(
                record@.app,
                #[trigger] before[j].app,
            ) by {
                if j > i {
                    assert(text_less(before[i as int].app, before[j].app));
                    if !replace {
                        lemma_less_transitive(record@.app, before[i as int].app, before[j].app);
                    }
                }
            }
            assert forall|a: int, b: int| 0 <= a < b < updated.len() implies text_less(
                #[trigger] updated[a].app,
                #[trigger] updated[b].app,
            ) by {
                if replace {
                    if a == i {
                    } else if b == i {
                    } else {
                        assert(text_less(before[a].app, before[b].app));
                    }
                } else {
                    if b < i {
                        assert(text_less(before[a].app, before[b].app));
                    } else if a < i && b == i {
                    } else if a < i && b > i {
                        lemma_less_transitive(before[a].app, record@.app, before[b - 1].app);
                    } else if a == i {
                    } else {
                        assert(text_less(before[a - 1].app, before[b - 1].app));
                    }
                }
            }
            assert forall|r: RecordModel| #[trigger] updated.contains(r) implies r == record@ || (r.app != record@.app
                && before.contains(r)) by {
                let k = choose|k: int| 0 <= k < updated.len() && updated[k] == r;
                if replace {
                    if k != i {
                        assert(before[k] == r);
                        if k < i {
                            lemma_less_irreflexive(r.app);
                        } else {
                            assert(text_less(before[i as int].app, before[k].app));
                            lemma_less_irreflexive(r.app);
                        }
                    }
                } else {
                    if k < i {
                        assert(before[k] == r);
                        lemma_less_irreflexive(r.app);
                    } else if k > i {
                        assert(before[k - 1] == r);
                        assert(text_less(record@.app, before[k - 1].app));
                        lemma_less_irreflexive(r.app);
                    }
                }
            }
            assert forall|r: RecordModel| #[trigger] before.contains(r) && r.app != record@.app implies updated.contains(r) by {
                let k = choose|k: int| 0 <= k < before.len() && before[k] == r;
                if replace {
                    assert(k != i);
                    assert(updated[k] == r);
                } else if k < i {
                    assert(updated[k] == r);
                } else {
                    assert(updated[k + 1] == r);
                }
            }
            assert(updated.contains(record@)) by {
                assert(updated[i as int] == record@);
            }
        }
        let mut servers: Vec<ServerRecord> = Vec::new();
        std::mem::swap(&mut servers, &mut self.servers);
        if replace {
            servers.set(i, record);
        } else {
            servers.insert(i, record);
        }
        assert(record_models(servers@) =~= updated);
        self.servers = servers;
        assert(self@ =~= updated);
    }

    /// Forgets an app's server.
    pub fn remove(&mut self, app: &str)
        ensures
            forall|r: RecordModel| #[trigger] final(self)@.contains(r) <==> (old(self)@.contains(r) && r.app != app@),
            sorted_records(final(self)@),
    {
        proof {
            use_type_invariant(&*self);
        }
        let ghost before = self@;
        let mut i: usize = 0;
        while i < self.servers.len()
            invariant
                i <= self.servers@.len(),
                before == record_models(self.servers@),
                before == old(self)@,
                sorted_records(before),
                forall|j: int| 0 <= j < i ==> (#[trigger] before[j]).app != app@,
            decreases self.servers@.len() - i,
        {
            if same_text(self.servers[i].app.as_str(), app) {
                let ghost removed = before.remove(i as int);
                proof {
                    assert forall|a: int, b: int| 0 <= a < b < removed.len() implies text_less(
                        #[trigger] removed[a].app,
                        #[trigger] removed[b].app,
                    ) by {
                        if a < i && b >= i {
                            assert(text_less(before[a].app, before[b + 1].app));
                        } else if a >= i {
                            assert(text_less(before[a + 1].app, before[b + 1].app));
                        }
                    }
                    assert forall|r: RecordModel| #[trigger] removed.contains(r) <==> (before.contains(r) && r.app != app@) by {
                        if removed.contains(r) {
                            let k = choose|k: int| 0 <= k < removed.len() && removed[k] == r;
                            if k < i {
                                assert(before[k] == r);
                                assert(text_less(before[k].app, before[i as int].app));
                                lemma_less_irreflexive(r.app);
                            } else {
                                assert(before[k + 1] == r);
                                assert(text_less(before[i as int].app, before[k + 1].app));
                                lemma_less_irreflexive(r.app);
                            }
                        }
                        if before.contains(r) && r.app != app@ {
                            let k = choose|k: int| 0 <= k < before.len() && before[k] == r;
                            if k < i {
                                assert(removed[k] == r);
                            } else {
                                assert(k != i);
                                assert(removed[k - 1] == r);
                            }
                        }
                    }
                }
                let mut servers: Vec<ServerRecord> = Vec::new();
                std::mem::swap(&mut servers, &mut self.servers);
                servers.remove(i);
                assert(record_models(servers@) =~= removed);
                self.servers = servers;
                assert(self@ =~= removed);
                return;
            }
            i = i + 1;
        }
    }
}

pub open spec fn not_managed_message(app: Seq<char>) -> Seq<char> {
    app + " is not managed by this console"@
}

/// The record of an app's server, or `{app} is not managed by this
/// console`.
pub fn managed<'a>(console: &'a DevConsole, app: &str) -> (r: Result<&'a ServerRecord, String>)
    ensures
        match r {
            Ok(record) => console@.contains(record@) && record@.app == app@,
            Err(m) => m@ == not_managed_message(app@) && forall|i: int|
                0 <= i < console@.len() ==> (#[trigger] console@[i]).app != app@,
        },
{
    match console.get(app) {
        Some(record) => Ok(record),
        None => {
            let mut message = owned(app);
            push_str(&mut message, " is not managed by this console");
            Err(message)
        },
    }
}

/// Whether a start may go ahead, and whether the server already running
/// must first be told to quit: a plain start of a running server is
/// refused.
pub fn start_check(existing: Option<&ServerRecord>, restart: bool, running: bool) -> (r: Result<bool, String>)
    ensures
        match existing {
            None => r == Ok::<bool, String>(false),
            Some(record) => if !restart && running {
                r matches Err(m) && m@ == record@.app + " is already running; use hoplite.dev/restart"@
            } else {
                r == Ok::<bool, String>(running)
            },
        },
{
    match existing {
        None => Ok(false),
        Some(record) => {
            if !restart && running {
                let mut message = owned(record.app.as_str());
                push_str(&mut message, " is already running; use hoplite.dev/restart");
                Err(message)
            } else {
                Ok(running)
            }
        },
    }
}

/// A start must name the selected profile's main app.
pub fn check_profile_main(app: &str, main: &str) -> (r: Result<(), String>)
    ensures
        match r {
            Ok(()) => app@ == main@,
            Err(m) => app@ != main@ && m@ == "app Var #"@ + app@ + " is not the selected profile main #"@ + main@,
        },
{
    if same_text(app, main) {
        Ok(())
    } else {
        let mut message = owned("app Var #");
        push_str(&mut message, app);
        push_str(&mut message, " is not the selected profile main #");
        push_str(&mut message, main);
        Err(message)
    }
}

fn keyword(name: &str) -> (value: HalValue)
    ensures
        value matches HalValue::Keyword(k) && k@ == name@,
{
    HalValue::Keyword(owned(name))
}

/// The map the service answers with for a server: its app, project,
/// profile, mode and status.
pub open spec fn describes_record(value: HalValue, record: RecordModel, running: bool) -> bool {
    value matches HalValue::Mapping(entries) && {
        let e = entries@;
        &&& e.len() == 5
        &&& e[0].0 matches HalValue::Keyword(k) && k@ == "app"@
        &&& e[0].1 matches HalValue::Symbol(s) && s@ == record.app
        &&& e[1].0 matches HalValue::Keyword(k) && k@ == "project"@
        &&& e[1].1 matches HalValue::String(s) && s@ == record.project
        &&& e[2].0 matches HalValue::Keyword(k) && k@ == "profile"@
        &&& match record.profile {
            Some(p) => e[2].1 matches HalValue::Keyword(k) && k@ == p,
            None => e[2].1 matches HalValue::Nil,
        }
        &&& e[3].0 matches HalValue::Keyword(k) && k@ == "mode"@
        &&& e[3].1 matches HalValue::Keyword(k) && k@ == (if record.production { "prod"@ } else { "dev"@ })
        &&& e[4].0 matches HalValue::Keyword(k) && k@ == "status"@
        &&& e[4].1 matches HalValue::Keyword(k) && k@ == (if running { "running"@ } else { "stopped"@ })
    }
}

/// The service's map for a server, given whether it is running.
pub fn record_value(record: &ServerRecord, running: bool) -> (value: HalValue)
    ensures
        describes_record(value, record@, running),
{
    let profile = match &record.profile {
        Some(p) => HalValue::Keyword(p.clone()),
        None => HalValue::Nil,
    };
    let mut entries: Vec<(HalValue, HalValue)> = Vec::new();
    entries.push((keyword("app"), HalValue::Symbol(record.app.clone())));
    entries.push((keyword("project"), HalValue::String(record.project.clone())));
    entries.push((keyword("profile"), profile));
    entries.push((keyword("mode"), keyword(if record.production { "prod" } else { "dev" })));
    entries.push((keyword("status"), keyword(if running { "running" } else { "stopped" })));
    HalValue::Mapping(entries)
}

/// The answer to `list-all`: one map per managed server, in app order, each
/// with the status found for it (`running[i]` for the `i`-th server).
pub fn list_all(console: &DevConsole, running: &Vec<bool>) -> (values: Vec<HalValue>)
    requires
        running@.len() == console@.len(),
    ensures
        values@.len() == console@.len(),
        forall|i: int| 0 <= i < values@.len() ==> describes_record(#[trigger] values@[i], console@[i], running@[i]),
{
    let records = console.records();
    let mut values: Vec<HalValue> = Vec::new();
    let mut i: usize = 0;
    while i < records.len()
        invariant
            i <= records@.len(),
            record_models(records@) == console@,
            running@.len() == console@.len(),
            values@.len() == i,
            forall|j: int| 0 <= j < i ==> describes_record(#[trigger] values@[j], console@[j], running@[j]),
        decreases records@.len() - i,
    {
        values.push(record_value(&records[i], running[i]));
        i = i + 1;
    }
    values
}

} // verus!
