//! The container management commands: what each one runs.
use serde_json::Value;
use vstd::prelude::*;
use crate::exec::{Step, StepView, steps_view};
use crate::text::{replace, replace_exec, split_char, split_char_exec, str_eq, views};

verus! {

/// The label that marks the tool's images and containers.
pub open spec fn images_filter() -> Seq<char> {
    "--filter \"label=maintainer=dev@zakuro.ai\" -a"@
}

/// The command that lists the ids of the `zk0` containers.
pub fn kill_query() -> (r: Step)
    ensures
        r@ == StepView::Cmd("ids=$(docker ps --filter 'name=zk0*' -a -q);echo $ids"@, None),
{
    Step::Cmd(String::from_str("ids=$(docker ps --filter 'name=zk0*' -a -q);echo $ids"), None)
}

/// Whether a text is longer than one byte in UTF-8.
pub open spec fn longer_than_one_byte(s: Seq<char>) -> bool {
    s.len() >= 2 || (s.len() == 1 && s[0] as u32 >= 0x80)
}

/// Stopping then removing each container of `ids`, in order.
pub open spec fn stop_and_remove(ids: Seq<Seq<char>>) -> Seq<StepView>
    decreases ids.len(),
{
    if ids.len() == 0 {
        Seq::empty()
    } else {
        stop_and_remove(ids.drop_last()) + seq![
            StepView::Tty("docker stop "@ + ids.last()),
            StepView::Tty("docker rm "@ + ids.last()),
        ]
    }
}

/// What `kill` does with the answer of `kill_query`.
pub open spec fn kill_steps(ids: Result<Seq<char>, Seq<char>>) -> Seq<StepView> {
    match ids {
        Ok(s) => if longer_than_one_byte(s) {
            stop_and_remove(split_char(s, ' '))
        } else {
            Seq::empty()
        },
        Err(_) => Seq::empty(),
    }
}

/// The view of a result of two strings.
pub open spec fn result_view(r: Result<String, String>) -> Result<Seq<char>, Seq<char>> {
    match r {
        Ok(s) => Ok(s@),
        Err(e) => Err(e@),
    }
}

/// Stops and removes every container whose id `kill_query` listed (separated
/// by spaces), when the listing is longer than one byte.
pub fn kill(ids: &Result<String, String>) -> (r: Vec<Step>)
    ensures
        steps_view(r@) == kill_steps(result_view(*ids)),
{
    let mut out: Vec<Step> = Vec::new();
    match ids {
        Ok(s) => {
            let n = s.as_str().unicode_len();
            let long = n >= 2 || (n == 1 && s.as_str().get_char(0) as u32 >= 0x80);
            if long {
                let parts = split_char_exec(s.as_str(), ' ');
                let ghost pv = views(parts@);
                let mut i: usize = 0;
                while i < parts.len()
                    invariant
                        i <= parts.len(),
                        pv == views(parts@),
                        steps_view(out@) == stop_and_remove(pv.take(i as int)),
                    decreases parts.len() - i,
                {
                    assert(pv.take(i + 1).drop_last() =~= pv.take(i as int));
                    assert(pv.take(i + 1).last() == parts[i as int]@);
                    let ghost before = steps_view(out@);
                    let mut a = String::from_str("docker stop ");
                    a.append(parts[i].as_str());
                    let mut b = String::from_str("docker rm ");
                    b.append(parts[i].as_str());
                    let ghost av = a@;
                    let ghost bv = b@;
                    out.push(Step::Tty(a));
                    out.push(Step::Tty(b));
                    assert(steps_view(out@) =~= before + seq![StepView::Tty(av), StepView::Tty(bv)]);
                    i = i + 1;
                }
                assert(pv.take(parts.len() as int) =~= pv);
            } else {
                assert(steps_view(out@) =~= Seq::<StepView>::empty());
            }
        },
        Err(_) => {
            assert(steps_view(out@) =~= Seq::<StepView>::empty());
        },
    }
    out
}

/// The command that removes the tool's images.
pub open spec fn rmi_command() -> Seq<char> {
    "docker rmi -f $(docker images "@ + images_filter() + " -q)"@
}

/// Kills the containers (see `kill`), then removes the tool's images.
pub fn rmi(ids: &Result<String, String>) -> (r: Vec<Step>)
    ensures
        steps_view(r@) == kill_steps(result_view(*ids)).push(StepView::Tty(rmi_command())),
{
    let mut out = kill(ids);
    let ghost before = steps_view(out@);
    let c = String::from_str("docker rmi -f $(docker images --filter \"label=maintainer=dev@zakuro.ai\" -a -q)");
    proof {
        reveal_strlit("docker rmi -f $(docker images --filter \"label=maintainer=dev@zakuro.ai\" -a -q)");
        reveal_strlit("docker rmi -f $(docker images ");
        reveal_strlit("--filter \"label=maintainer=dev@zakuro.ai\" -a");
        reveal_strlit(" -q)");
        assert(c@ =~= rmi_command());
    }
    out.push(Step::Tty(c));
    assert(steps_view(out@) =~= before.push(StepView::Tty(rmi_command())));
    out
}

/// The command that tags the image `image` with the machine's architecture
/// `dist`, pushes it, and removes the tag.
pub open spec fn push_command(image: Seq<char>, dist: Seq<char>) -> Seq<char> {
    "docker tag zakuroai/"@ + image + ":latest zakuroai/"@ + image + ":"@ + dist
        + " && docker push zakuroai/"@ + image + ":"@ + dist + " && docker rmi zakuroai/"@ + image
        + ":"@ + dist
}

/// Pushes `image` for the architecture `dist`: nothing without an image or
/// without the architecture.
pub fn push(image: Option<&str>, dist: &Result<String, String>) -> (r: Option<Step>)
    ensures
        match (image, *dist) {
            (Some(i), Ok(d)) => r matches Some(s) && s@ == StepView::Cmd(push_command(i@, d@), None),
            _ => r is None,
        },
{
    match (image, dist) {
        (Some(i), Ok(d)) => {
            let d = d.as_str();
            let mut c = String::from_str("docker tag zakuroai/");
            c.append(i);
            c.append(":latest zakuroai/");
            c.append(i);
            c.append(":");
            c.append(d);
            c.append(" && docker push zakuroai/");
            c.append(i);
            c.append(":");
            c.append(d);
            c.append(" && docker rmi zakuroai/");
            c.append(i);
            c.append(":");
            c.append(d);
            Some(Step::Cmd(c, None))
        },
        _ => None,
    }
}

/// Lists the tool's images.
pub fn images() -> (r: Step)
    ensures
        r@ == StepView::Tty("docker images "@ + images_filter()),
{
    let mut c = String::from_str("docker images ");
    c.append("--filter \"label=maintainer=dev@zakuro.ai\" -a");
    Step::Tty(c)
}

/// Lists the tool's containers.
pub fn ps() -> (r: Step)
    ensures
        r@ == StepView::Tty("docker ps "@ + images_filter()),
{
    let mut c = String::from_str("docker ps ");
    c.append("--filter \"label=maintainer=dev@zakuro.ai\" -a");
    Step::Tty(c)
}

/// Pulling, tagging as `latest` and untagging one image.
pub open spec fn pull_image(image: Seq<char>, dist: Seq<char>) -> Seq<StepView> {
    seq![
        StepView::Tty("docker pull zakuroai/"@ + image + ":"@ + dist),
        StepView::Tty("docker tag zakuroai/"@ + image + ":"@ + dist + " zakuroai/"@ + image + ":latest"@),
        StepView::Tty("docker rmi zakuroai/"@ + image + ":"@ + dist),
    ]
}

/// What `pull` does for the architecture `dist`.
pub open spec fn pull_steps(dist: Result<Seq<char>, Seq<char>>) -> Seq<StepView> {
    match dist {
        Ok(d) => pull_image("network"@, d) + pull_image("storage"@, d) + pull_image("compute"@, d),
        Err(_) => Seq::empty(),
    }
}

fn pull_one(image: &str, d: &str, out: &mut Vec<Step>)
    ensures
        steps_view(final(out)@) == steps_view(old(out)@) + pull_image(image@, d@),
{
    let ghost before = steps_view(out@);
    let mut a = String::from_str("docker pull zakuroai/");
    a.append(image);
    a.append(":");
    a.append(d);
    let mut b = String::from_str("docker tag zakuroai/");
    b.append(image);
    b.append(":");
    b.append(d);
    b.append(" zakuroai/");
    b.append(image);
    b.append(":latest");
    let mut c = String::from_str("docker rmi zakuroai/");
    c.append(image);
    c.append(":");
    c.append(d);
    let ghost (av, bv, cv) = (a@, b@, c@);
    out.push(Step::Tty(a));
    out.push(Step::Tty(b));
    out.push(Step::Tty(c));
    assert(steps_view(out@) =~= before + seq![StepView::Tty(av), StepView::Tty(bv), StepView::Tty(cv)]);
}

/// Pulls the network, storage and compute images for the architecture `dist`
/// and tags them `latest`; nothing without the architecture.
pub fn pull(dist: &Result<String, String>) -> (r: Vec<Step>)
    ensures
        steps_view(r@) == pull_steps(result_view(*dist)),
{
    let mut out: Vec<Step> = Vec::new();
    assert(steps_view(out@) =~= Seq::<StepView>::empty());
    match dist {
        Ok(d) => {
            pull_one("network", d.as_str(), &mut out);
            pull_one("storage", d.as_str(), &mut out);
            pull_one("compute", d.as_str(), &mut out);
            assert(steps_view(out@) =~= pull_steps(result_view(*dist)));
        },
        Err(_) => {},
    }
    out
}

/// Stops and removes the `zk0` container.
pub fn remove_container() -> (r: Step)
    ensures
        r@ == StepView::Cmd("docker stop zk0 && docker rm zk0"@, None),
{
    Step::Cmd(String::from_str("docker stop zk0 && docker rm zk0"), None)
}

/// Restarts the compose project in the context directory `context`; nothing
/// without a context.
pub fn restart(context: Option<&str>) -> (r: Option<Step>)
    ensures
        match context {
            Some(c) => r matches Some(s) && s@ == StepView::Tty(
                "cd "@ + c@ + " && docker compose down && docker compose up -d"@,
            ),
            None => r is None,
        },
{
    match context {
        Some(c) => {
            let mut s = String::from_str("cd ");
            s.append(c);
            s.append(" && docker compose down && docker compose up -d");
            Some(Step::Tty(s))
        },
        None => None,
    }
}

/// Starts a Spark worker in `zk0`.
pub fn add_worker() -> (r: Step)
    ensures
        r@ == StepView::Cmd("docker exec -d zk0 bash -c '/spark'"@, Some(true)),
{
    Step::Cmd(String::from_str("docker exec -d zk0 bash -c '/spark'"), Some(true))
}

/// Opens a shell in `zk0`.
pub fn connect() -> (r: Step)
    ensures
        r@ == StepView::Tty("docker exec -it -e TERM=xterm-256color zk0 /bin/bash"@),
{
    Step::Tty(String::from_str("docker exec -it -e TERM=xterm-256color zk0 /bin/bash"))
}

/// Lists the Jupyter servers of `zk0`.
pub fn server_list() -> (r: Step)
    ensures
        r@ == StepView::Zk0("jupyter-server list"@),
{
    Step::Zk0(String::from_str("jupyter-server list"))
}

/// The scan of the cluster network for live nodes.
pub fn nodes_query() -> (r: Step)
    ensures
        r@ == StepView::Cmd("nmap -sP 10.13.13.0/24 -oG - | awk '/Up$/{print $2}'"@, None),
{
    let mut c = String::from_str("nmap -sP 10.13.13.0/24 -oG -");
    c.append(" | ");
    c.append("awk '/Up$/{print $2}'");
    proof {
        reveal_strlit("nmap -sP 10.13.13.0/24 -oG -");
        reveal_strlit(" | ");
        reveal_strlit("awk '/Up$/{print $2}'");
        reveal_strlit("nmap -sP 10.13.13.0/24 -oG - | awk '/Up$/{print $2}'");
        assert(c@ =~= "nmap -sP 10.13.13.0/24 -oG - | awk '/Up$/{print $2}'"@);
    }
    Step::Cmd(c, None)
}

} // verus!

verus! {

/// The scan's answer as one line: its lines separated by `|`.
pub fn nodes_line(scan: &str) -> (r: String)
    ensures
        r@ == replace(scan@, seq!['\n'], seq!['|']),
{
    proof {
        reveal_strlit("\n");
        reveal_strlit("|");
        assert("\n"@ =~= seq!['\n']);
        assert("|"@ =~= seq!['|']);
    }
    replace_exec(scan, "\n", "|")
}

/// Where the list of workers comes from.
#[derive(Debug, Clone, PartialEq, Eq)]
pub enum WorkersSource {
    /// The Spark master's JSON status, at this URL.
    Master(String),
    /// The tool inside `zk0`, run with this command.
    Zk0(String),
    /// The cluster address could not be found; the error's text.
    Failed(String),
}

/// Chooses where to ask for the workers, from the answer of `wg0ip` with
/// `force_local` set: the master when this machine is in the cluster, `zk0`
/// when it is not.
pub fn workers(local: &Result<Option<String>, String>) -> (r: WorkersSource)
    ensures
        match *local {
            Ok(Some(_)) => r matches WorkersSource::Master(u) && u@ == "http://10.13.13.2:8080/json"@,
            Ok(None) => r matches WorkersSource::Zk0(c) && c@ == "zc workers"@,
            Err(e) => r matches WorkersSource::Failed(m) && m@ == e@,
        },
{
    match local {
        Ok(Some(_)) => WorkersSource::Master(String::from_str("http://10.13.13.2:8080/json")),
        Ok(None) => WorkersSource::Zk0(String::from_str("zc workers")),
        Err(e) => WorkersSource::Failed(e.clone()),
    }
}

/// A worker as the master's status lists it: each field as its JSON text.
#[derive(Debug, Clone, PartialEq, Eq)]
pub struct WorkerInfo {
    pub host: String,
    pub state: String,
    pub memory: String,
    pub cores: String,
}

/// The lines that describe the workers.
pub open spec fn worker_lines(ws: Seq<WorkerInfo>) -> Seq<Seq<char>>
    decreases ws.len(),
{
    if ws.len() == 0 {
        Seq::empty()
    } else {
        let w = ws.last();
        worker_lines(ws.drop_last()) + seq![
            "Host: "@ + w.host@,
            "State: "@ + w.state@,
            "Memory: "@ + w.memory@,
            "Core: "@ + w.cores@,
            "--------------------------"@,
        ]
    }
}

/// The report on the workers of the master's status; `None` when the status
/// has no `workers` entry.
pub fn workers_report(ws: &Option<Vec<WorkerInfo>>) -> (r: Vec<String>)
    ensures
        views(r@) == match *ws {
            Some(v) => worker_lines(v@),
            None => seq!["No workers found"@],
        },
{
    let mut out: Vec<String> = Vec::new();
    match ws {
        None => {
            out.push(String::from_str("No workers found"));
            assert(views(out@) =~= seq!["No workers found"@]);
        },
        Some(v) => {
            let mut i: usize = 0;
            while i < v.len()
                invariant
                    i <= v.len(),
                    views(out@) == worker_lines(v@.take(i as int)),
                decreases v.len() - i,
            {
                assert(v@.take(i + 1).drop_last() =~= v@.take(i as int));
                let ghost before = views(out@);
                let w = &v[i];
                let mut a = String::from_str("Host: ");
                a.append(w.host.as_str());
                let mut b = String::from_str("State: ");
                b.append(w.state.as_str());
                let mut c = String::from_str("Memory: ");
                c.append(w.memory.as_str());
                let mut d = String::from_str("Core: ");
                d.append(w.cores.as_str());
                let e = String::from_str("--------------------------");
                let ghost lines = seq![a@, b@, c@, d@, e@];
                out.push(a);
                out.push(b);
                out.push(c);
                out.push(d);
                out.push(e);
                assert(views(out@) =~= before + lines);
                i = i + 1;
            }
            assert(v@.take(v.len() as int) =~= v@);
        },
    }
    out
}

} // verus!

verus! {

/// A JSON value of the `serde_json` crate.
#[verifier::external_type_specification]
#[verifier::external_body]
pub struct ExJsonValue(Value);

/// A JSON value as the library holds it: its JSON text (as `serde_json`
/// displays it) and what kind of value it is.
#[derive(Debug, PartialEq, Eq)]
pub struct Json {
    pub text: String,
    pub kind: JsonKind,
}

/// The kinds of JSON values, with their parts: the items of an array in
/// order, the members of an object (each name once).
#[derive(Debug, PartialEq, Eq)]
pub enum JsonKind {
    Null,
    Bool(bool),
    Number,
    Str(String),
    Array(Vec<Json>),
    Object(Vec<(String, Json)>),
}

/// What `serde_json::from_slice::<Value>` reads from `bytes`: the value as a
/// `Json`, or the text of the parser's error (its `Display`).
pub uninterp spec fn json_model(bytes: Seq<u8>) -> Result<Json, Seq<char>>;

/// `serde_json::from_slice::<Value>`: parses `bytes` as JSON and gives the
/// value as a `Json`, or the parser's message. Claimed: the result, value or
/// message, is what `json_model` names for the bytes, which depends on the
/// bytes alone.
#[verifier::external_body]
fn parse_json(bytes: &[u8]) -> (r: Result<Json, String>)
    ensures
        match (r, json_model(bytes@)) {
            (Ok(j), Ok(k)) => j == k,
            (Err(e), Err(m)) => e@ == m,
            _ => false,
        },
{
    match serde_json::from_slice::<Value>(bytes) {
        Ok(v) => Ok(json_value(&v)),
        Err(e) => Err(e.to_string()),
    }
}

/// The conversion of a parsed `Value` into a `Json`, one variant for each of
/// `Value`'s, with the value's `Display` text. Only `parse_json` uses it, and
/// the claim on the result is stated there.
#[verifier::external_body]
fn json_value(v: &Value) -> Json {
    let kind = match v {
        Value::Null => JsonKind::Null,
        Value::Bool(b) => JsonKind::Bool(*b),
        Value::Number(_) => JsonKind::Number,
        Value::String(s) => JsonKind::Str(s.clone()),
        Value::Array(a) => JsonKind::Array(a.iter().map(json_value).collect()),
        Value::Object(m) => JsonKind::Object(m.iter().map(|(k, x)| (k.clone(), json_value(x))).collect()),
    };
    Json { text: v.to_string(), kind }
}

/// The member named `key` among the members from the `i`-th on.
pub open spec fn entry_from(es: Seq<(String, Json)>, key: Seq<char>, i: int) -> Option<Json>
    decreases es.len() - i,
{
    if i < 0 || i >= es.len() {
        None
    } else if es[i].0@ == key {
        Some(es[i].1)
    } else {
        entry_from(es, key, i + 1)
    }
}

/// The member `key` of an object (`Value::get`); `None` for a value that is
/// not an object or has no such member.
pub open spec fn member(j: Json, key: Seq<char>) -> Option<Json> {
    match j.kind {
        JsonKind::Object(es) => entry_from(es@, key, 0),
        _ => None,
    }
}

/// The text of `j[key]`: the member's JSON text, or `null` where there is no
/// such member (indexing a `Value` gives `Null` then).
pub open spec fn member_text(j: Json, key: Seq<char>) -> Seq<char> {
    match member(j, key) {
        Some(m) => m.text@,
        None => "null"@,
    }
}

/// The worker described by the item `item` of the status's `workers` list.
pub open spec fn worker_of(w: WorkerInfo, item: Json) -> bool {
    &&& w.host@ == member_text(item, "host"@)
    &&& w.state@ == member_text(item, "state"@)
    &&& w.memory@ == member_text(item, "memory"@)
    &&& w.cores@ == member_text(item, "cores"@)
}

fn member_exec<'a>(j: &'a Json, key: &str) -> (r: Option<&'a Json>)
    ensures
        match r {
            Some(m) => member(*j, key@) == Some(*m),
            None => member(*j, key@) is None,
        },
{
    match &j.kind {
        JsonKind::Object(es) => {
            assert(member(*j, key@) == entry_from(es@, key@, 0));
            let mut i: usize = 0;
            while i < es.len()
                invariant
                    i <= es.len(),
                    member(*j, key@) == entry_from(es@, key@, 0),
                    entry_from(es@, key@, 0) == entry_from(es@, key@, i as int),
                decreases es.len() - i,
            {
                if str_eq(es[i].0.as_str(), key) {
                    assert(entry_from(es@, key@, i as int) == Some(es@[i as int].1));
                    return Some(&es[i].1);
                }
                i = i + 1;
            }
            None
        },
        _ => None,
    }
}

fn member_text_exec(j: &Json, key: &str) -> (r: String)
    ensures
        r@ == member_text(*j, key@),
{
    match member_exec(j, key) {
        Some(m) => m.text.clone(),
        None => {
            proof {
                reveal_strlit("null");
            }
            String::from_str("null")
        },
    }
}

/// Why the master's JSON status could not be read.
#[derive(Debug, Clone, PartialEq, Eq)]
pub enum StatusError {
    /// The body is not JSON; the parser's message.
    Parse(String),
    /// The `workers` entry is not a list.
    NotAList,
}

/// The workers that the master's JSON status `body` lists, in order, each
/// field (`host`, `state`, `memory`, `cores`) as the JSON text of that member
/// of the item; `None` when the status has no `workers` entry. Fails with the
/// parser's message exactly when the body is not JSON, and with `NotAList`
/// when the `workers` entry is not an array.
pub fn listed_workers(body: &[u8]) -> (r: Result<Option<Vec<WorkerInfo>>, StatusError>)
    ensures
        match json_model(body@) {
            Err(m) => r matches Err(StatusError::Parse(e)) && e@ == m,
            Ok(j) => match member(j, "workers"@) {
                None => r matches Ok(None),
                Some(w) => match w.kind {
                    JsonKind::Array(items) => r matches Ok(Some(ws)) && ws@.len() == items@.len() && (forall|i: int|
                        0 <= i < ws@.len() ==> worker_of(#[trigger] ws@[i], items@[i])),
                    _ => r matches Err(StatusError::NotAList),
                },
            },
        },
{
    let status = match parse_json(body) {
        Ok(v) => v,
        Err(e) => return Err(StatusError::Parse(e)),
    };
    proof {
        reveal_strlit("workers");
        reveal_strlit("host");
        reveal_strlit("state");
        reveal_strlit("memory");
        reveal_strlit("cores");
    }
    let listed = match member_exec(&status, "workers") {
        Some(w) => w,
        None => return Ok(None),
    };
    let items = match &listed.kind {
        JsonKind::Array(items) => items,
        _ => return Err(StatusError::NotAList),
    };
    let mut out: Vec<WorkerInfo> = Vec::new();
    let mut i: usize = 0;
    while i < items.len()
        invariant
            i <= items.len(),
            out@.len() == i,
            forall|k: int| 0 <= k < i ==> worker_of(#[trigger] out@[k], items@[k]),
        decreases items.len() - i,
    {
        let w = &items[i];
        out.push(
            WorkerInfo {
                host: member_text_exec(w, "host"),
                state: member_text_exec(w, "state"),
                memory: member_text_exec(w, "memory"),
                cores: member_text_exec(w, "cores"),
            },
        );
        i = i + 1;
    }
    Ok(Some(out))
}

} // verus!
