//! The database's side: how a SQL call is relayed to the daemon over HTTP.
//!
//! Settings are read, queries run and requests sent by the one who drives the
//! relay. What is sent, what is locked and what is made of the reply is
//! decided here.

use crate::audit::Caller;
use crate::outside::{
    default_hash, hash_of_text, json_array, json_content, json_elements, json_get, json_members,
    json_text, quoted_text, text_debug,
};
use crate::text::{
    decimal, decimal_int, decimal_int_text, decimal_text, lemma_decimal_int_stands, stands_for,
};
use crate::write_coordinator::{opt_str, opt_string};
use serde_json::Value;
use vstd::prelude::*;
use vstd::string::*;

verus! {

/// The base URL of the daemon where none is set.
pub open spec fn default_base() -> Seq<char> {
    "http://127.0.0.1:8080"@
}

/// The base URL of the daemon.
pub fn daemon_base(setting: Option<&str>) -> (base: String)
    ensures
        base@ == match setting {
            Some(s) => s@,
            None => default_base(),
        },
{
    match setting {
        Some(s) => s.to_string(),
        None => "http://127.0.0.1:8080".to_string(),
    }
}

/// The HTTP method of a relayed call.
#[derive(Clone, Copy, Debug, PartialEq, Eq, Structural)]
pub enum Verb {
    /// A read, with its arguments in the query.
    Get,
    /// A write, with its arguments in the body.
    Post,
    /// An update, with its arguments in the body.
    Put,
}

impl Verb {
    /// The name of the method.
    pub open spec fn word(self) -> Seq<char> {
        match self {
            Verb::Get => "GET"@,
            Verb::Post => "POST"@,
            Verb::Put => "PUT"@,
        }
    }

    /// The name of the method.
    pub fn name(&self) -> (name: &'static str)
        ensures
            name@ == self.word(),
    {
        match self {
            Verb::Get => "GET",
            Verb::Post => "POST",
            Verb::Put => "PUT",
        }
    }
}

/// The text, or an empty one.
pub open spec fn text_or_empty(s: Option<String>) -> Seq<char> {
    match s {
        Some(s) => s@,
        None => Seq::empty(),
    }
}

fn or_empty(s: &Option<String>) -> (text: String)
    ensures
        text@ == text_or_empty(*s),
{
    match s {
        Some(s) => s.clone(),
        None => {
            let text = String::new();
            assert(text@ =~= Seq::<char>::empty());
            text
        },
    }
}

/// The process number, or an empty text.
pub open spec fn pid_or_empty(pid: Option<i32>) -> Seq<char> {
    match pid {
        Some(p) => decimal_int(p as int),
        None => Seq::empty(),
    }
}

fn pid_text(pid: Option<i32>) -> (text: String)
    ensures
        text@ == pid_or_empty(pid),
{
    match pid {
        Some(p) => decimal_int_text(p as i64),
        None => {
            let text = String::new();
            assert(text@ =~= Seq::<char>::empty());
            text
        },
    }
}

/// The headers that tell the daemon who makes the call. What is not known is
/// sent empty.
pub open spec fn caller_header_views(c: Caller) -> Seq<(Seq<char>, Seq<char>)> {
    seq![
        ("X-Pg-Role"@, text_or_empty(c.pg_role)),
        ("X-Pg-Application"@, text_or_empty(c.application_name)),
        ("X-Pg-Client-Addr"@, text_or_empty(c.client_addr)),
        ("X-Pg-Backend-Pid"@, pid_or_empty(c.backend_pid)),
        ("X-Pg-Session-User"@, text_or_empty(c.session_user)),
    ]
}

/// The headers that tell the daemon who makes the call.
pub fn caller_headers(c: &Caller) -> (headers: Vec<(&'static str, String)>)
    ensures
        headers@.map_values(|h: (&'static str, String)| (h.0@, h.1@)) == caller_header_views(*c),
{
    let mut headers: Vec<(&'static str, String)> = Vec::new();
    headers.push(("X-Pg-Role", or_empty(&c.pg_role)));
    headers.push(("X-Pg-Application", or_empty(&c.application_name)));
    headers.push(("X-Pg-Client-Addr", or_empty(&c.client_addr)));
    headers.push(("X-Pg-Backend-Pid", pid_text(c.backend_pid)));
    headers.push(("X-Pg-Session-User", or_empty(&c.session_user)));
    assert(headers@.map_values(|h: (&'static str, String)| (h.0@, h.1@)) =~= caller_header_views(
        *c,
    ));
    headers
}

/// How the log shows a text that may be missing.
pub open spec fn shown_text(s: Option<String>) -> Seq<char> {
    match s {
        Some(s) => "Some("@ + text_debug(s@) + ")"@,
        None => "None"@,
    }
}

fn show_text(s: &Option<String>) -> (text: String)
    ensures
        text@ == shown_text(*s),
{
    match s {
        Some(s) => {
            let mut text = "Some(".to_string();
            text.append(quoted_text(s.as_str()).as_str());
            text.append(")");
            text
        },
        None => "None".to_string(),
    }
}

/// How the log shows a process number that may be missing.
pub open spec fn shown_pid(pid: Option<i32>) -> Seq<char> {
    match pid {
        Some(p) => "Some("@ + decimal_int(p as int) + ")"@,
        None => "None"@,
    }
}

fn show_pid(pid: Option<i32>) -> (text: String)
    ensures
        text@ == shown_pid(pid),
{
    match pid {
        Some(p) => {
            let mut text = "Some(".to_string();
            text.append(decimal_int_text(p as i64).as_str());
            text.append(")");
            text
        },
        None => "None".to_string(),
    }
}

/// The line that the server log gets for a call.
pub open spec fn call_line(
    verb: Seq<char>,
    table_function: Seq<char>,
    args: Value,
    c: Caller,
) -> Seq<char> {
    "pg_relay "@ + verb + " "@ + table_function + " args="@ + json_content(args)
        + " caller(role="@ + shown_text(c.pg_role) + " app="@ + shown_text(c.application_name)
        + " addr="@ + shown_text(c.client_addr) + " pid="@ + shown_pid(c.backend_pid)
        + " session_user="@ + shown_text(c.session_user) + ")"@
}

/// The line that the server log gets for a call.
pub fn log_call(verb: Verb, table_function: &str, args: &Value, c: &Caller) -> (line: String)
    ensures
        line@ == call_line(verb.word(), table_function@, *args, *c),
{
    let mut line = "pg_relay ".to_string();
    line.append(verb.name());
    line.append(" ");
    line.append(table_function);
    line.append(" args=");
    line.append(json_text(args).as_str());
    line.append(" caller(role=");
    line.append(show_text(&c.pg_role).as_str());
    line.append(" app=");
    line.append(show_text(&c.application_name).as_str());
    line.append(" addr=");
    line.append(show_text(&c.client_addr).as_str());
    line.append(" pid=");
    line.append(show_pid(c.backend_pid).as_str());
    line.append(" session_user=");
    line.append(show_text(&c.session_user).as_str());
    line.append(")");
    line
}

/// A request to the daemon.
pub struct Outgoing {
    pub verb: Verb,
    pub url: String,
    /// The arguments as the query parameter `args`; `None` where they go in
    /// the body.
    pub query: Option<String>,
    pub headers: Vec<(&'static str, String)>,
}

/// The request for a call: the name of the table function is the path of the
/// URL; a read has its arguments in the query.
pub open spec fn is_request_for(
    out: Outgoing,
    verb: Verb,
    base: Seq<char>,
    table_function: Seq<char>,
    args: Value,
    c: Caller,
) -> bool {
    &&& out.verb == verb
    &&& out.url@ == base + "/"@ + table_function
    &&& match out.query {
        Some(q) => verb == Verb::Get && q@ == json_content(args),
        None => verb != Verb::Get,
    }
    &&& out.headers@.map_values(|h: (&'static str, String)| (h.0@, h.1@)) == caller_header_views(c)
}

/// The request to the daemon for a call.
pub fn outgoing(
    verb: Verb,
    base: &str,
    table_function: &str,
    args: &Value,
    c: &Caller,
) -> (out: Outgoing)
    ensures
        is_request_for(out, verb, base@, table_function@, *args, *c),
{
    let mut url = base.to_string();
    url.append("/");
    url.append(table_function);
    let query = match verb {
        Verb::Get => Some(json_text(args)),
        _ => None,
    };
    Outgoing { verb, url, query, headers: caller_headers(c) }
}

/// What was read of a reply.
pub enum Body {
    /// A text.
    Text(String),
    /// A JSON document.
    Document(Value),
    /// It could not be read, with this message.
    Unreadable(String),
}

/// What came back from the daemon.
pub enum Reply {
    /// Nothing: the daemon could not be reached.
    Unreachable(String),
    /// A status and a body.
    Answered { code: u16, body: Body },
}

/// The status stands for success.
pub open spec fn succeeds(code: u16) -> bool {
    200 <= code < 300
}

/// The status stands for success, and the body has to be a document. Of any
/// other status the body is read as a text.
pub fn is_success(code: u16) -> (yes: bool)
    ensures
        yes == succeeds(code),
{
    200 <= code && code < 300
}

/// The rows of a document: the elements of its member `rows`.
pub open spec fn rows_of(v: Value) -> Option<Seq<Value>> {
    if json_members(v).contains_key("rows"@) {
        json_elements(json_members(v)["rows"@])
    } else {
        None
    }
}

/// How the body of a failed call is shown.
pub open spec fn shown_body(body: Body) -> Seq<char> {
    match body {
        Body::Text(t) => t@,
        Body::Document(v) => json_content(v),
        Body::Unreadable(_) => Seq::empty(),
    }
}

/// The rows of a reply, or the error to raise: only a status of success with a
/// document that has a `rows` array gives rows.
pub open spec fn reply_rows(reply: Reply) -> Result<Seq<Value>, Seq<char>> {
    match reply {
        Reply::Unreachable(t) => Err("pg_relay: could not reach daemon: "@ + t@),
        Reply::Answered { code, body } => if !succeeds(code) {
            Err(
                "pg_relay: daemon returned HTTP "@ + decimal(code as nat) + ": "@ + shown_body(
                    body,
                ),
            )
        } else {
            match body {
                Body::Document(v) => match rows_of(v) {
                    Some(rows) => Ok(rows),
                    None => Err("pg_relay: daemon response missing a 'rows' array"@),
                },
                Body::Text(t) => Err("pg_relay: invalid daemon response: "@ + t@),
                Body::Unreadable(e) => Err("pg_relay: invalid daemon response: "@ + e@),
            }
        },
    }
}

fn show_body(body: &Body) -> (text: String)
    ensures
        text@ == shown_body(*body),
{
    match body {
        Body::Text(t) => t.clone(),
        Body::Document(v) => json_text(v),
        Body::Unreadable(_) => {
            let text = String::new();
            assert(text@ =~= Seq::<char>::empty());
            text
        },
    }
}

fn invalid_response(why: &str) -> (text: String)
    ensures
        text@ == "pg_relay: invalid daemon response: "@ + why@,
{
    let mut text = "pg_relay: invalid daemon response: ".to_string();
    text.append(why);
    text
}

/// The rows that the daemon returned, or the error to raise.
pub fn rows_from(reply: Reply) -> (result: Result<Vec<Value>, String>)
    ensures
        match reply_rows(reply) {
            Ok(rows) => result matches Ok(r) && r@ == rows,
            Err(m) => result matches Err(e) && e@ == m,
        },
{
    match reply {
        Reply::Unreachable(t) => {
            let mut text = "pg_relay: could not reach daemon: ".to_string();
            text.append(t.as_str());
            Err(text)
        },
        Reply::Answered { code, body } => {
            if !is_success(code) {
                let mut text = "pg_relay: daemon returned HTTP ".to_string();
                text.append(decimal_text(code as u64).as_str());
                text.append(": ");
                text.append(show_body(&body).as_str());
                return Err(text);
            }
            match body {
                Body::Text(t) => Err(invalid_response(t.as_str())),
                Body::Unreadable(e) => Err(invalid_response(e.as_str())),
                Body::Document(v) => {
                    if let Some(member) = json_get(&v, "rows") {
                        if let Some(rows) = json_array(member) {
                            return Ok(copy_rows(rows));
                        }
                    }
                    Err("pg_relay: daemon response missing a 'rows' array".to_string())
                },
            }
        },
    }
}

fn copy_rows(rows: &Vec<Value>) -> (copy: Vec<Value>)
    ensures
        copy@ == rows@,
{
    let mut copy: Vec<Value> = Vec::new();
    let mut i: usize = 0;
    while i < rows.len()
        invariant
            i <= rows.len(),
            copy@ == rows@.take(i as int),
        decreases rows.len() - i,
    {
        copy.push(rows[i].clone());
        assert(copy@ =~= rows@.take(i + 1));
        i += 1;
    }
    assert(rows@.take(i as int) =~= rows@);
    copy
}

/// The shard that a write belongs to: the member of its arguments that the
/// setting names, in JSON notation. Without a setting, or without that member,
/// there is none.
pub open spec fn shard_of(field: Option<Seq<char>>, args: Value) -> Option<Seq<char>> {
    match field {
        Some(f) => if f.len() > 0 && json_members(args).contains_key(f) {
            Some(json_content(json_members(args)[f]))
        } else {
            None
        },
        None => None,
    }
}

/// The shard that a write belongs to, `None` where it is not to be locked.
pub fn shard_value(field: Option<&str>, args: &Value) -> (shard: Option<String>)
    ensures
        opt_string(shard) == shard_of(opt_str(field), *args),
{
    match field {
        None => None,
        Some(f) => {
            if f.unicode_len() == 0 {
                return None;
            }
            match json_get(args, f) {
                Some(v) => Some(json_text(v)),
                None => None,
            }
        },
    }
}

/// A number of 64 bits as a signed one.
pub open spec fn as_signed(n: u64) -> int {
    if n < 0x8000_0000_0000_0000 {
        n as int
    } else {
        n - 0x1_0000_0000_0000_0000
    }
}

/// The number of the advisory lock for a text.
pub fn lock_key(s: &str) -> (key: i64)
    ensures
        key == as_signed(default_hash(s@)),
{
    let n: u64 = hash_of_text(s);
    if n < 0x8000_0000_0000_0000 {
        n as i64
    } else {
        let above: u64 = n - 0x8000_0000_0000_0000;
        i64::MIN + above as i64
    }
}

/// What to do when another write holds the lock of a shard.
#[derive(Clone, Copy, Debug, PartialEq, Eq, Structural)]
pub enum WriteLock {
    /// Wait until it is released.
    Wait,
    /// Fail at once.
    Nowait,
}

/// How the lock of a write is taken.
pub enum LockPlan {
    /// It is not.
    Unlocked,
    /// By running this query, which waits.
    Wait { sql: String },
    /// By asking with this query whether it could be taken, and failing with
    /// this message where it could not.
    Try { sql: String, conflict: String },
}

/// The text that is hashed to the number of the lock.
pub open spec fn lock_text(table_function: Seq<char>, shard: Seq<char>) -> Seq<char> {
    table_function + ":"@ + shard
}

/// The number of the lock of a shard.
pub open spec fn lock_number(table_function: Seq<char>, shard: Seq<char>) -> int {
    as_signed(default_hash(lock_text(table_function, shard)))
}

/// The plan takes the lock of the shard in the given way.
pub open spec fn is_plan(
    plan: LockPlan,
    table_function: Seq<char>,
    shard: Option<Seq<char>>,
    mode: WriteLock,
) -> bool {
    match shard {
        None => plan is Unlocked,
        Some(s) => {
            let number = decimal_int(lock_number(table_function, s));
            match mode {
                WriteLock::Wait => plan matches LockPlan::Wait { sql } && sql@
                    == "SELECT pg_advisory_xact_lock("@ + number + ")"@,
                WriteLock::Nowait => plan matches LockPlan::Try { sql, conflict } && sql@
                    == "SELECT pg_try_advisory_xact_lock("@ + number + ")"@ && conflict@
                    == "pg_relay: write conflict on shard "@ + s
                    + " (another write is in progress)"@,
            }
        },
    }
}

/// How the lock of a write is taken.
pub fn lock_plan(table_function: &str, shard: Option<&str>, mode: WriteLock) -> (plan: LockPlan)
    ensures
        is_plan(plan, table_function@, opt_str(shard), mode),
{
    let shard = match shard {
        None => {
            return LockPlan::Unlocked;
        },
        Some(s) => s,
    };
    let mut text = table_function.to_string();
    text.append(":");
    text.append(shard);
    let number = decimal_int_text(lock_key(text.as_str()));
    match mode {
        WriteLock::Wait => {
            let mut sql = "SELECT pg_advisory_xact_lock(".to_string();
            sql.append(number.as_str());
            sql.append(")");
            LockPlan::Wait { sql }
        },
        WriteLock::Nowait => {
            let mut sql = "SELECT pg_try_advisory_xact_lock(".to_string();
            sql.append(number.as_str());
            sql.append(")");
            let mut conflict = "pg_relay: write conflict on shard ".to_string();
            conflict.append(shard);
            conflict.append(" (another write is in progress)");
            LockPlan::Try { sql, conflict }
        },
    }
}

/// The error where the query for a lock failed.
pub fn lock_failure(e: &str) -> (message: String)
    ensures
        message@ == "pg_relay: failed to take write lock: "@ + e@,
{
    let mut message = "pg_relay: failed to take write lock: ".to_string();
    message.append(e);
    message
}

/// Whether the write may go on after the lock was asked for: only a plain yes
/// will do.
pub fn after_try(got: Option<bool>, conflict: String) -> (result: Result<(), String>)
    ensures
        match got {
            Some(true) => result is Ok,
            _ => result == Err::<(), String>(conflict),
        },
{
    match got {
        Some(true) => Ok(()),
        _ => Err(conflict),
    }
}

/// The SQL functions.
#[derive(Clone, Copy, Debug, PartialEq, Eq, Structural)]
pub enum Relay {
    /// `pg_relay_read`
    Read,
    /// `pg_relay_write`
    Write,
    /// `pg_relay_update`
    Update,
}

/// The HTTP method for a SQL function.
pub open spec fn verb_of(relay: Relay) -> Verb {
    match relay {
        Relay::Read => Verb::Get,
        Relay::Write => Verb::Post,
        Relay::Update => Verb::Put,
    }
}

/// Where a call of a SQL function stands.
pub enum RelayStage {
    /// Its line is being logged.
    Logging { lock: LockPlan, request: Outgoing },
    /// It waits for its lock.
    Locking { request: Outgoing },
    /// It asks for its lock.
    Trying { conflict: String, request: Outgoing },
    /// Its request is with the daemon.
    Sending,
}

/// What happened to a call.
pub enum RelayEvent {
    /// The line was logged.
    Logged,
    /// The lock was taken.
    Locked,
    /// The query whether the lock could be taken gave this.
    Tried(Option<bool>),
    /// The query for the lock failed, with this message.
    LockFailed(String),
    /// The daemon replied, or could not.
    Replied(Reply),
}

/// What has to be done next about a call. After the last two it is over.
pub enum RelayAction {
    /// Write this line to the server log.
    Log { line: String, then: RelayStage },
    /// Run this query, which waits for the lock.
    Lock { sql: String, then: RelayStage },
    /// Run this query, which gives whether the lock could be taken.
    Try { sql: String, then: RelayStage },
    /// Send this request.
    Send { request: Outgoing, then: RelayStage },
    /// Raise this error.
    Raise(String),
    /// Return these rows.
    Return(Vec<Value>),
}

/// The call begins by being logged, and goes on with the lock and the request
/// that it needs. Only an update is locked, by the value of the field that is
/// set.
pub open spec fn relay_begun(
    action: RelayAction,
    relay: Relay,
    base: Seq<char>,
    field: Option<Seq<char>>,
    mode: WriteLock,
    table_function: Seq<char>,
    args: Value,
    c: Caller,
) -> bool {
    action matches RelayAction::Log { line, then: RelayStage::Logging { lock, request } } && line@
        == call_line(verb_of(relay).word(), table_function, args, c) && is_request_for(
        request,
        verb_of(relay),
        base,
        table_function,
        args,
        c,
    ) && is_plan(
        lock,
        table_function,
        if relay == Relay::Update {
            shard_of(field, args)
        } else {
            None
        },
        mode,
    )
}

/// Begins a call of a SQL function.
pub fn relay_call(
    relay: Relay,
    base: &str,
    field: Option<&str>,
    mode: WriteLock,
    table_function: &str,
    args: &Value,
    c: &Caller,
) -> (action: RelayAction)
    ensures
        relay_begun(action, relay, base@, opt_str(field), mode, table_function@, *args, *c),
{
    let (verb, shard) = match relay {
        Relay::Read => (Verb::Get, None),
        Relay::Write => (Verb::Post, None),
        Relay::Update => (Verb::Put, shard_value(field, args)),
    };
    let lock = match &shard {
        Some(s) => lock_plan(table_function, Some(s.as_str()), mode),
        None => LockPlan::Unlocked,
    };
    RelayAction::Log {
        line: log_call(verb, table_function, args, c),
        then: RelayStage::Logging { lock, request: outgoing(verb, base, table_function, args, c) },
    }
}

/// The event can happen at this stage.
pub open spec fn relay_awaits(stage: RelayStage, event: RelayEvent) -> bool {
    match stage {
        RelayStage::Logging { .. } => event is Logged,
        RelayStage::Locking { .. } => event is Locked || event is LockFailed,
        RelayStage::Trying { .. } => event is Tried || event is LockFailed,
        RelayStage::Sending => event is Replied,
    }
}

/// The request is sent.
pub open spec fn sends(action: RelayAction, request: Outgoing) -> bool {
    action == (RelayAction::Send { request, then: RelayStage::Sending })
}

/// How a call goes on after an event: once logged, it takes its lock, if it has
/// one; once it has the lock, its request is sent; and the reply is returned or
/// raised. A lock that is refused or fails is raised, and nothing is sent.
pub open spec fn relay_stepped(stage: RelayStage, event: RelayEvent, action: RelayAction) -> bool {
    match (stage, event) {
        (RelayStage::Logging { lock, request }, _) => match lock {
            LockPlan::Unlocked => sends(action, request),
            LockPlan::Wait { sql } => action == (RelayAction::Lock {
                sql,
                then: RelayStage::Locking { request },
            }),
            LockPlan::Try { sql, conflict } => action == (RelayAction::Try {
                sql,
                then: RelayStage::Trying { conflict, request },
            }),
        },
        (_, RelayEvent::LockFailed(e)) => action matches RelayAction::Raise(m) && m@
            == "pg_relay: failed to take write lock: "@ + e@,
        (RelayStage::Locking { request }, _) => sends(action, request),
        (RelayStage::Trying { conflict, request }, RelayEvent::Tried(Some(true))) => sends(
            action,
            request,
        ),
        (RelayStage::Trying { conflict, request }, _) => action == RelayAction::Raise(conflict),
        (RelayStage::Sending, RelayEvent::Replied(reply)) => match reply_rows(reply) {
            Ok(rows) => action matches RelayAction::Return(r) && r@ == rows,
            Err(m) => action matches RelayAction::Raise(e) && e@ == m,
        },
        _ => true,
    }
}

impl RelayStage {
    /// Says how the call goes on after an event.
    pub fn next(self, event: RelayEvent) -> (action: RelayAction)
        requires
            relay_awaits(self, event),
        ensures
            relay_stepped(self, event, action),
    {
        match (self, event) {
            (RelayStage::Logging { lock, request }, _) => match lock {
                LockPlan::Unlocked => RelayAction::Send { request, then: RelayStage::Sending },
                LockPlan::Wait { sql } => RelayAction::Lock {
                    sql,
                    then: RelayStage::Locking { request },
                },
                LockPlan::Try { sql, conflict } => RelayAction::Try {
                    sql,
                    then: RelayStage::Trying { conflict, request },
                },
            },
            (_, RelayEvent::LockFailed(e)) => RelayAction::Raise(lock_failure(e.as_str())),
            (RelayStage::Locking { request }, _) => RelayAction::Send {
                request,
                then: RelayStage::Sending,
            },
            (RelayStage::Trying { conflict, request }, RelayEvent::Tried(got)) => {
                match after_try(got, conflict) {
                    Ok(()) => RelayAction::Send { request, then: RelayStage::Sending },
                    Err(m) => RelayAction::Raise(m),
                }
            },
            (_, RelayEvent::Replied(reply)) => match rows_from(reply) {
                Ok(rows) => RelayAction::Return(rows),
                Err(m) => RelayAction::Raise(m),
            },
            _ => RelayAction::Raise(String::new()),
        }
    }
}

/// The stage that a call is at after an action; none where it is over.
pub open spec fn stage_after(action: RelayAction) -> Option<RelayStage> {
    match action {
        RelayAction::Log { then, .. } => Some(then),
        RelayAction::Lock { then, .. } => Some(then),
        RelayAction::Try { then, .. } => Some(then),
        RelayAction::Send { then, .. } => Some(then),
        RelayAction::Raise(_) => None,
        RelayAction::Return(_) => None,
    }
}

/// The actions that a call goes through, event by event.
pub open spec fn relay_history(actions: Seq<RelayAction>, events: Seq<RelayEvent>) -> bool {
    &&& actions.len() == events.len() + 1
    &&& forall|i: int| #![trigger events[i]]
        0 <= i < events.len() ==> (stage_after(actions[i]) matches Some(stage) && relay_awaits(
            stage,
            events[i],
        ) && relay_stepped(stage, events[i], actions[i + 1]))
}

/// The lock was granted by the event, or there is none to be had.
pub open spec fn grants(lock: LockPlan, event: RelayEvent) -> bool {
    match lock {
        LockPlan::Unlocked => event is Logged,
        LockPlan::Wait { .. } => event is Locked,
        LockPlan::Try { .. } => event == RelayEvent::Tried(Some(true)),
    }
}

/// The action and what follows it are in keeping with the lock and the request
/// that the call began with.
spec fn keeps(action: RelayAction, lock: LockPlan, request: Outgoing) -> bool {
    match action {
        RelayAction::Log { then, .. } => then == (RelayStage::Logging { lock, request }),
        RelayAction::Lock { sql, then } => lock == (LockPlan::Wait { sql }) && then == (
        RelayStage::Locking { request }),
        RelayAction::Try { sql, then } => then matches RelayStage::Trying { conflict, request: r }
            && r == request && lock == (LockPlan::Try { sql, conflict }),
        RelayAction::Send { request: r, then } => r == request && then == RelayStage::Sending,
        _ => true,
    }
}

proof fn lemma_relay(
    actions: Seq<RelayAction>,
    events: Seq<RelayEvent>,
    lock: LockPlan,
    request: Outgoing,
    i: int,
)
    requires
        relay_history(actions, events),
        actions[0] matches RelayAction::Log { then, .. } && then == (RelayStage::Logging {
            lock,
            request,
        }),
        0 <= i < actions.len(),
    ensures
        keeps(actions[i], lock, request),
        i > 0 ==> !(actions[i] is Log),
        actions[i] is Send ==> i > 0 && grants(lock, events[i - 1]),
    decreases i,
{
    if i > 0 {
        lemma_relay(actions, events, lock, request, i - 1);
        let event = events[i - 1];
        assert(stage_after(actions[i - 1]) matches Some(stage) && relay_awaits(stage, event)
            && relay_stepped(stage, event, actions[i]));
    }
}

/// Every call writes exactly one line to the server log, before anything else
/// is done about it, and so also where its lock is refused.
pub proof fn law_one_line_per_call(
    actions: Seq<RelayAction>,
    events: Seq<RelayEvent>,
    relay: Relay,
    base: Seq<char>,
    field: Option<Seq<char>>,
    mode: WriteLock,
    table_function: Seq<char>,
    args: Value,
    c: Caller,
)
    requires
        relay_history(actions, events),
        relay_begun(actions[0], relay, base, field, mode, table_function, args, c),
    ensures
        actions[0] matches RelayAction::Log { line, .. } && line@ == call_line(
            verb_of(relay).word(),
            table_function,
            args,
            c,
        ),
        forall|i: int| #![trigger actions[i]] 0 < i < actions.len() ==> !(actions[i] is Log),
{
    let then = actions[0]->Log_then;
    assert forall|i: int| #![trigger actions[i]] 0 < i < actions.len() implies !(actions[i] is Log) by {
        lemma_relay(actions, events, then->Logging_lock, then->Logging_request, i);
    }
}

/// A request is sent only with its lock: right after the lock was granted, or
/// where there is none to be had; and what is sent is the request for the call.
pub proof fn law_nothing_is_sent_without_its_lock(
    actions: Seq<RelayAction>,
    events: Seq<RelayEvent>,
    lock: LockPlan,
    request: Outgoing,
    i: int,
)
    requires
        relay_history(actions, events),
        actions[0] matches RelayAction::Log { then, .. } && then == (RelayStage::Logging {
            lock,
            request,
        }),
        0 <= i < actions.len(),
        actions[i] is Send,
    ensures
        i > 0 && grants(lock, events[i - 1]),
        actions[i]->Send_request == request,
{
    lemma_relay(actions, events, lock, request, i);
}

/// Nothing follows a refusal: an action that raises an error or returns rows is
/// the last.
pub proof fn law_nothing_follows_the_end(
    actions: Seq<RelayAction>,
    events: Seq<RelayEvent>,
    i: int,
)
    requires
        relay_history(actions, events),
        0 <= i < actions.len(),
        actions[i] is Raise || actions[i] is Return,
    ensures
        i == actions.len() - 1,
{
    if i < events.len() {
        let event = events[i];
        assert(stage_after(actions[i]) is Some);
    }
}

/// Rows come only from a status of success.
pub proof fn law_rows_need_success(reply: Reply)
    requires
        reply_rows(reply) is Ok,
    ensures
        reply matches Reply::Answered { code, .. } && succeeds(code),
{
}

/// Writes to the same shard of a table function ask for the same lock,
/// whatever else their arguments hold and however the lock is taken.
pub proof fn law_same_shard_same_lock(
    field: Seq<char>,
    table_function: Seq<char>,
    a: Value,
    b: Value,
)
    requires
        shard_of(Some(field), a) is Some,
        json_members(b).contains_key(field),
        json_content(json_members(a)[field]) == json_content(json_members(b)[field]),
    ensures
        shard_of(Some(field), b) == shard_of(Some(field), a),
        lock_number(table_function, shard_of(Some(field), b)->0) == lock_number(
            table_function,
            shard_of(Some(field), a)->0,
        ),
{
}

/// A write is not locked where no field is set, nor where its arguments do not
/// have the field.
pub proof fn law_no_shard_no_lock(field: Seq<char>, args: Value)
    ensures
        shard_of(None, args) is None,
        shard_of(Some(Seq::empty()), args) is None,
        !json_members(args).contains_key(field) ==> shard_of(Some(field), args) is None,
{
}

/// Each identity header carries its own field of the caller, and is empty where
/// that field is not known.
pub proof fn law_headers_tell_who_calls(c: &Caller, headers: Vec<(&'static str, String)>)
    requires
        call_ensures(caller_headers, (c,), headers),
    ensures
        headers@.len() == 5,
        headers@[0].0@ == "X-Pg-Role"@,
        headers@[1].0@ == "X-Pg-Application"@,
        headers@[2].0@ == "X-Pg-Client-Addr"@,
        headers@[3].0@ == "X-Pg-Backend-Pid"@,
        headers@[4].0@ == "X-Pg-Session-User"@,
        c.pg_role matches Some(role) ==> headers@[0].1@ == role@,
        c.pg_role is None ==> headers@[0].1@.len() == 0,
        c.application_name matches Some(name) ==> headers@[1].1@ == name@,
        c.application_name is None ==> headers@[1].1@.len() == 0,
        c.client_addr matches Some(addr) ==> headers@[2].1@ == addr@,
        c.client_addr is None ==> headers@[2].1@.len() == 0,
        c.backend_pid matches Some(pid) ==> stands_for(headers@[3].1@, pid as int),
        c.backend_pid is None ==> headers@[3].1@.len() == 0,
        c.session_user matches Some(user) ==> headers@[4].1@ == user@,
        c.session_user is None ==> headers@[4].1@.len() == 0,
{
    let views = headers@.map_values(|h: (&'static str, String)| (h.0@, h.1@));
    assert(views.len() == 5);
    assert(views[0] == (headers@[0].0@, headers@[0].1@));
    assert(views[1] == (headers@[1].0@, headers@[1].1@));
    assert(views[2] == (headers@[2].0@, headers@[2].1@));
    assert(views[3] == (headers@[3].0@, headers@[3].1@));
    assert(views[4] == (headers@[4].0@, headers@[4].1@));
    if let Some(pid) = c.backend_pid {
        lemma_decimal_int_stands(pid as int);
    }
}

/// The headers of a request are those of its caller.
pub proof fn law_request_tells_who_calls(
    verb: Verb,
    base: &str,
    table_function: &str,
    args: &Value,
    c: &Caller,
    out: Outgoing,
    headers: Vec<(&'static str, String)>,
)
    requires
        call_ensures(outgoing, (verb, base, table_function, args, c), out),
        call_ensures(caller_headers, (c,), headers),
    ensures
        out.headers@.len() == headers@.len(),
        forall|i: int| #![trigger out.headers@[i]]
            0 <= i < headers@.len() ==> out.headers@[i].0@ == headers@[i].0@ && out.headers@[i].1@
                == headers@[i].1@,
{
    let a = out.headers@.map_values(|h: (&'static str, String)| (h.0@, h.1@));
    let b = headers@.map_values(|h: (&'static str, String)| (h.0@, h.1@));
    assert(a == b);
    assert(a.len() == out.headers@.len() && b.len() == headers@.len());
    assert forall|i: int| #![trigger out.headers@[i]]
        0 <= i < headers@.len() implies out.headers@[i].0@ == headers@[i].0@ && out.headers@[i].1@
        == headers@[i].1@ by {
        assert(a[i] == b[i]);
    }
}

/// The URL of a request is the base URL, a slash and the name of the table
/// function, whatever the verb; a read has its arguments in the query, the
/// others in the body.
pub proof fn law_request_goes_to_its_table_function(
    verb: Verb,
    base: &str,
    table_function: &str,
    args: &Value,
    c: &Caller,
    out: Outgoing,
)
    requires
        call_ensures(outgoing, (verb, base, table_function, args, c), out),
    ensures
        out.verb == verb,
        out.url@ == base@ + "/"@ + table_function@,
        verb == Verb::Get ==> (out.query matches Some(q) && q@ == json_content(*args)),
        verb != Verb::Get ==> out.query is None,
{
}

/// Calls of different table functions go to different URLs of a daemon, with
/// whatever verb, and calls of the same one to the same URL.
pub proof fn law_table_functions_have_their_own_urls(
    base: &str,
    verb: Verb,
    table_function: &str,
    args: &Value,
    c: &Caller,
    out: Outgoing,
    other_verb: Verb,
    other_function: &str,
    other_args: &Value,
    d: &Caller,
    other: Outgoing,
)
    requires
        call_ensures(outgoing, (verb, base, table_function, args, c), out),
        call_ensures(outgoing, (other_verb, base, other_function, other_args, d), other),
    ensures
        out.url@ == other.url@ <==> table_function@ == other_function@,
{
    if out.url@ == other.url@ {
        let n = (base@.len() + "/"@.len()) as int;
        assert(out.url@.skip(n) =~= table_function@);
        assert(other.url@.skip(n) =~= other_function@);
    }
}

/// What is sent for the three SQL functions: a read is a `GET`, a write a `POST`
/// and an update a `PUT`, each to the URL of the table function, and each is
/// logged with its verb before anything else.
pub proof fn law_call_is_logged_and_requested(
    relay: Relay,
    base: &str,
    field: Option<&str>,
    mode: WriteLock,
    table_function: &str,
    args: &Value,
    c: &Caller,
    action: RelayAction,
    verb: Verb,
    name: &'static str,
    out: Outgoing,
    text: String,
)
    requires
        call_ensures(relay_call, (relay, base, field, mode, table_function, args, c), action),
        action matches RelayAction::Log { then: RelayStage::Logging { request, .. }, .. }
            && request.verb == verb,
        call_ensures(Verb::name, (&verb,), name),
        call_ensures(outgoing, (verb, base, table_function, args, c), out),
        call_ensures(log_call, (verb, table_function, args, c), text),
    ensures
        action matches RelayAction::Log { line, then: RelayStage::Logging { lock, request } } && {
            &&& name@ == match relay {
                Relay::Read => "GET"@,
                Relay::Write => "POST"@,
                Relay::Update => "PUT"@,
            }
            &&& request.url@ == base@ + "/"@ + table_function@
            &&& request.query is Some <==> relay == Relay::Read
            &&& request.query matches Some(q) ==> q@ == json_content(*args)
            &&& request.headers@.len() == out.headers@.len()
            &&& forall|i: int| #![trigger request.headers@[i]]
                0 <= i < out.headers@.len() ==> request.headers@[i].0@ == out.headers@[i].0@
                    && request.headers@[i].1@ == out.headers@[i].1@
            &&& line@ == text@
        },
{
    let request = action->Log_then->Logging_request;
    let a = request.headers@.map_values(|h: (&'static str, String)| (h.0@, h.1@));
    let b = out.headers@.map_values(|h: (&'static str, String)| (h.0@, h.1@));
    assert(a == b);
    assert(a.len() == request.headers@.len() && b.len() == out.headers@.len());
    assert forall|i: int| #![trigger request.headers@[i]]
        0 <= i < out.headers@.len() implies request.headers@[i].0@ == out.headers@[i].0@
        && request.headers@[i].1@ == out.headers@[i].1@ by {
        assert(a[i] == b[i]);
    }
}

/// The line in the server log names the verb, the table function, the arguments
/// and each field of the caller in its own place.
pub proof fn law_line_tells_the_call(
    verb: Verb,
    table_function: &str,
    args: &Value,
    c: &Caller,
    line: String,
    name: &'static str,
)
    requires
        call_ensures(log_call, (verb, table_function, args, c), line),
        call_ensures(Verb::name, (&verb,), name),
    ensures
        ({
            let role = match c.pg_role {
                Some(s) => "Some("@ + text_debug(s@) + ")"@,
                None => "None"@,
            };
            let application = match c.application_name {
                Some(s) => "Some("@ + text_debug(s@) + ")"@,
                None => "None"@,
            };
            let addr = match c.client_addr {
                Some(s) => "Some("@ + text_debug(s@) + ")"@,
                None => "None"@,
            };
            let user = match c.session_user {
                Some(s) => "Some("@ + text_debug(s@) + ")"@,
                None => "None"@,
            };
            let before = "pg_relay "@ + name@ + " "@ + table_function@ + " args="@ + json_content(
                *args,
            ) + " caller(role="@ + role + " app="@ + application + " addr="@ + addr + " pid="@;
            let after = " session_user="@ + user + ")"@;
            match c.backend_pid {
                Some(pid) => exists|digits: Seq<char>| #[trigger]
                    stands_for(digits, pid as int) && line@ == before + ("Some("@ + digits + ")"@)
                        + after,
                None => line@ == before + "None"@ + after,
            }
        }),
{
    let role = shown_text(c.pg_role);
    let application = shown_text(c.application_name);
    let addr = shown_text(c.client_addr);
    let user = shown_text(c.session_user);
    let before = "pg_relay "@ + name@ + " "@ + table_function@ + " args="@ + json_content(*args)
        + " caller(role="@ + role + " app="@ + application + " addr="@ + addr + " pid="@;
    let after = " session_user="@ + user + ")"@;
    if let Some(pid) = c.backend_pid {
        let digits = decimal_int(pid as int);
        lemma_decimal_int_stands(pid as int);
        assert(line@ =~= before + ("Some("@ + digits + ")"@) + after);
    } else {
        assert(line@ =~= before + "None"@ + after);
    }
}

/// The verbs by their names.
pub proof fn law_verb_names(verb: Verb, name: &'static str)
    requires
        call_ensures(Verb::name, (&verb,), name),
    ensures
        verb == Verb::Get ==> name@ == "GET"@,
        verb == Verb::Post ==> name@ == "POST"@,
        verb == Verb::Put ==> name@ == "PUT"@,
{
}

/// The number of an advisory lock is the hash of its text as a signed number:
/// the two differ by a multiple of 2^64.
pub proof fn law_lock_key_is_the_hash(s: &str, key: i64)
    requires
        call_ensures(lock_key, (s,), key),
    ensures
        key == default_hash(s@) || key + 0x1_0000_0000_0000_0000 == default_hash(s@),
{
}

/// Every write that has a shard is locked, and only such a write: by waiting in
/// mode wait, by asking in mode nowait, in both cases with the number of the lock
/// of that table function and that shard.
pub proof fn law_every_shard_is_locked(
    table_function: &str,
    shard: Option<&str>,
    mode: WriteLock,
    plan: LockPlan,
    text: &str,
    key: i64,
)
    requires
        call_ensures(lock_plan, (table_function, shard, mode), plan),
        call_ensures(lock_key, (text,), key),
        shard matches Some(s) ==> text@ == table_function@ + ":"@ + s@,
    ensures
        plan is Unlocked <==> shard is None,
        shard is Some && mode == WriteLock::Wait ==> (plan matches LockPlan::Wait { sql } && exists|
            digits: Seq<char>,
        | #[trigger]
            stands_for(digits, key as int) && sql@ == "SELECT pg_advisory_xact_lock("@ + digits
                + ")"@),
        shard is Some && mode == WriteLock::Nowait ==> (plan matches LockPlan::Try { sql, conflict }
            && exists|digits: Seq<char>| #[trigger]
            stands_for(digits, key as int) && sql@ == "SELECT pg_try_advisory_xact_lock("@ + digits
                + ")"@),
        shard matches Some(s) ==> (plan matches LockPlan::Try { sql, conflict } ==> conflict@
            == "pg_relay: write conflict on shard "@ + s@ + " (another write is in progress)"@),
{
    lemma_decimal_int_stands(key as int);
}

/// The shard of a write is the value of the field that is set, whatever kind of
/// value that is; there is none where no field is set, its name is empty or the
/// arguments do not have it.
pub proof fn law_shard_is_the_value_of_the_field(
    field: Option<&str>,
    args: &Value,
    shard: Option<String>,
)
    requires
        call_ensures(shard_value, (field, args), shard),
    ensures
        shard is Some <==> (field matches Some(f) && f@.len() > 0 && json_members(*args).contains_key(
            f@,
        )),
        shard matches Some(s) ==> (field matches Some(f) && s@ == json_content(
            json_members(*args)[f@],
        )),
{
}

/// An update whose field is set and is among its arguments is never sent without
/// the lock of its shard; a call of another SQL function, or without the field,
/// is not locked.
pub proof fn law_update_takes_the_lock_of_its_shard(
    relay: Relay,
    base: &str,
    field: Option<&str>,
    mode: WriteLock,
    table_function: &str,
    args: &Value,
    c: &Caller,
    action: RelayAction,
    text: &str,
    key: i64,
)
    requires
        call_ensures(relay_call, (relay, base, field, mode, table_function, args, c), action),
        call_ensures(lock_key, (text,), key),
        field matches Some(f) ==> text@ == table_function@ + ":"@ + json_content(
            json_members(*args)[f@],
        ),
    ensures
        action matches RelayAction::Log { then: RelayStage::Logging { lock, .. }, .. } && {
            let locked = relay == Relay::Update && (field matches Some(f) && f@.len() > 0
                && json_members(*args).contains_key(f@));
            &&& lock is Unlocked <==> !locked
            &&& lock is Wait <==> locked && mode == WriteLock::Wait
            &&& lock is Try <==> locked && mode == WriteLock::Nowait
            &&& lock matches LockPlan::Wait { sql } ==> exists|digits: Seq<char>| #[trigger]
                stands_for(digits, key as int) && sql@ == "SELECT pg_advisory_xact_lock("@ + digits
                    + ")"@
            &&& lock matches LockPlan::Try { sql, .. } ==> exists|digits: Seq<char>| #[trigger]
                stands_for(digits, key as int) && sql@ == "SELECT pg_try_advisory_xact_lock("@
                    + digits + ")"@
            &&& lock matches LockPlan::Try { conflict, .. } ==> conflict@
                == "pg_relay: write conflict on shard "@ + json_content(
                json_members(*args)[field->0@],
            ) + " (another write is in progress)"@
        },
{
    lemma_decimal_int_stands(key as int);
}

/// Updates of the same shard of a table function ask for the same lock, whatever
/// else they hold.
pub proof fn law_same_shard_same_query(
    base: &str,
    field: Option<&str>,
    mode: WriteLock,
    table_function: &str,
    a: &Value,
    c: &Caller,
    one: RelayAction,
    b: &Value,
    d: &Caller,
    two: RelayAction,
)
    requires
        call_ensures(relay_call, (Relay::Update, base, field, mode, table_function, a, c), one),
        call_ensures(relay_call, (Relay::Update, base, field, mode, table_function, b, d), two),
        field matches Some(f) && f@.len() > 0 && json_members(*a).contains_key(f@) && json_members(
            *b,
        ).contains_key(f@) && json_content(json_members(*a)[f@]) == json_content(
            json_members(*b)[f@],
        ),
    ensures
        one matches RelayAction::Log { then: RelayStage::Logging { lock: x, .. }, .. } && (
        two matches RelayAction::Log { then: RelayStage::Logging { lock: y, .. }, .. } && match (
            x,
            y,
        ) {
            (LockPlan::Wait { sql: p }, LockPlan::Wait { sql: q }) => p@ == q@,
            (LockPlan::Try { sql: p, .. }, LockPlan::Try { sql: q, .. }) => p@ == q@,
            _ => false,
        }),
{
}

/// After its line was logged a call goes on with its lock, or with its request
/// where it has none.
pub proof fn law_logged_call_goes_on(
    lock: LockPlan,
    request: Outgoing,
    action: RelayAction,
)
    requires
        call_ensures(
            RelayStage::next,
            (RelayStage::Logging { lock, request }, RelayEvent::Logged),
            action,
        ),
    ensures
        match lock {
            LockPlan::Unlocked => action == (RelayAction::Send {
                request,
                then: RelayStage::Sending,
            }),
            LockPlan::Wait { sql } => action == (RelayAction::Lock {
                sql,
                then: RelayStage::Locking { request },
            }),
            LockPlan::Try { sql, conflict } => action == (RelayAction::Try {
                sql,
                then: RelayStage::Trying { conflict, request },
            }),
        },
{
}

/// A request is sent once its lock is there; where the lock is refused or cannot
/// be asked for, that is raised and nothing is sent.
pub proof fn law_refused_lock_is_raised(
    conflict: String,
    request: Outgoing,
    event: RelayEvent,
    action: RelayAction,
)
    requires
        event is Tried || event is LockFailed,
        call_ensures(
            RelayStage::next,
            (RelayStage::Trying { conflict, request }, event),
            action,
        ),
    ensures
        event == RelayEvent::Tried(Some(true)) ==> action == (RelayAction::Send {
            request,
            then: RelayStage::Sending,
        }),
        event is Tried && event != RelayEvent::Tried(Some(true)) ==> action == RelayAction::Raise(
            conflict,
        ),
        event matches RelayEvent::LockFailed(e) ==> (action matches RelayAction::Raise(m) && m@
            == "pg_relay: failed to take write lock: "@ + e@),
{
}

/// A call that waits for its lock sends its request once it has it; where
/// waiting fails, that is raised and nothing is sent.
pub proof fn law_failed_wait_is_raised(request: Outgoing, event: RelayEvent, action: RelayAction)
    requires
        event is Locked || event is LockFailed,
        call_ensures(RelayStage::next, (RelayStage::Locking { request }, event), action),
    ensures
        event is Locked ==> action == (RelayAction::Send { request, then: RelayStage::Sending }),
        event matches RelayEvent::LockFailed(e) ==> (action matches RelayAction::Raise(m) && m@
            == "pg_relay: failed to take write lock: "@ + e@),
{
}

/// The reply ends a call: its rows are returned, all of them and in their order,
/// or what is wrong with it is raised.
pub proof fn law_reply_is_returned(
    reply: Reply,
    result: Result<Vec<Value>, String>,
    action: RelayAction,
)
    requires
        call_ensures(rows_from, (reply,), result),
        call_ensures(
            RelayStage::next,
            (RelayStage::Sending, RelayEvent::Replied(reply)),
            action,
        ),
    ensures
        match result {
            Ok(rows) => action matches RelayAction::Return(r) && r@ == rows@,
            Err(m) => action matches RelayAction::Raise(e) && e@ == m@,
        },
{
}

/// The rows are the elements of the array `rows` in a document that came with a
/// status from 200 to 299, all of them and in their order; everything else is an
/// error that says what is wrong.
pub proof fn law_rows_are_those_of_the_reply(reply: Reply, result: Result<Vec<Value>, String>)
    requires
        call_ensures(rows_from, (reply,), result),
    ensures
        match reply {
            Reply::Unreachable(t) => result matches Err(m) && m@
                == "pg_relay: could not reach daemon: "@ + t@,
            Reply::Answered { code, body } => if code < 200 || code > 299 {
                result matches Err(m) && exists|digits: Seq<char>, shown: Seq<char>| #[trigger]
                    stands_for(digits, code as int) && m@ == #[trigger] (
                    "pg_relay: daemon returned HTTP "@ + digits + ": "@ + shown) && shown == match body {
                        Body::Text(t) => t@,
                        Body::Document(v) => json_content(v),
                        Body::Unreadable(_) => Seq::empty(),
                    }
            } else {
                match body {
                    Body::Text(t) => result matches Err(m) && m@
                        == "pg_relay: invalid daemon response: "@ + t@,
                    Body::Unreadable(e) => result matches Err(m) && m@
                        == "pg_relay: invalid daemon response: "@ + e@,
                    Body::Document(v) => if json_members(v).contains_key("rows"@) && json_elements(
                        json_members(v)["rows"@],
                    ) is Some {
                        result matches Ok(rows) && rows@ == json_elements(
                            json_members(v)["rows"@],
                        )->0
                    } else {
                        result matches Err(m) && m@
                            == "pg_relay: daemon response missing a 'rows' array"@
                    },
                }
            },
        },
{
    if let Reply::Answered { code, body } = reply {
        lemma_decimal_int_stands(code as int);
        if code < 200 || code > 299 {
            let digits = decimal(code as nat);
            assert(stands_for(digits, code as int));
            assert(result->Err_0@ == "pg_relay: daemon returned HTTP "@ + digits + ": "@
                + shown_body(body));
        }
    }
}

/// Exactly the statuses from 200 to 299 stand for success.
pub proof fn law_success_is_2xx(code: u16, yes: bool)
    requires
        call_ensures(is_success, (code,), yes),
    ensures
        yes <==> 200 <= code <= 299,
{
}

/// The daemon is where the setting says, or on this machine where there is none.
pub proof fn law_daemon_is_where_the_setting_says(setting: Option<&str>, base: String)
    requires
        call_ensures(daemon_base, (setting,), base),
    ensures
        setting matches Some(s) ==> base@ == s@,
        setting is None ==> base@ == "http://127.0.0.1:8080"@,
{
}

/// Only a plain yes gets a lock, and otherwise the conflict is what is raised.
pub proof fn law_only_a_yes_gets_the_lock(
    got: Option<bool>,
    conflict: String,
    result: Result<(), String>,
)
    requires
        call_ensures(after_try, (got, conflict), result),
    ensures
        result is Ok <==> got == Some(true),
        result matches Err(m) ==> m@ == conflict@,
{
}

} // verus!
