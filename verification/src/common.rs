//! The general commands: the machine's architecture, building the images,
//! fetching the configuration and credentials, and setting the context.
use vstd::prelude::*;
use crate::exec::{Step, StepView, steps_view};
use crate::text::{contains_exec, contains_str, join, join_exec, split_char, split_char_exec, str_eq, views};

verus! {

/// The command that prints the machine's architecture.
pub fn dist_query() -> (r: Step)
    ensures
        r@ == StepView::Cmd("echo $(uname -m)"@, None),
{
    Step::Cmd(String::from_str("echo $(uname -m)"), None)
}

/// The machine's architecture from the answer of `dist_query`.
pub fn dist(answer: Result<String, String>) -> (r: Result<String, String>)
    ensures
        match answer {
            Ok(v) => r matches Ok(d) && d@ == v@,
            Err(_) => r matches Err(e) && e@ == "Couldn't extract dist"@,
        },
{
    match answer {
        Ok(v) => Ok(v),
        Err(_) => Err(String::from_str("Couldn't extract dist")),
    }
}

/// The build architecture for a machine architecture.
pub open spec fn build_arch(dist: Seq<char>) -> Seq<char> {
    if dist == "arm64"@ {
        "aarch64"@
    } else if dist == "amd64"@ {
        "x86_64"@
    } else {
        dist
    }
}

/// The arguments after the first two.
pub open spec fn after_two(args: Seq<Seq<char>>) -> Seq<Seq<char>> {
    if args.len() <= 2 {
        Seq::empty()
    } else {
        args.skip(2)
    }
}

/// The command that builds the images named after the first two arguments.
pub open spec fn build_command(args: Seq<Seq<char>>, dist: Seq<char>) -> Seq<char> {
    "BUILDARCH="@ + build_arch(dist) + " BUILDARCHI="@ + dist + " docker compose build "@ + join(
        after_two(args),
        " "@,
    )
}

/// Builds the images named by `args` (the command line; its first two
/// items are the program and the command) for the architecture `dist`;
/// nothing without arguments or without the architecture.
pub fn build(args: Option<Vec<String>>, dist: Result<String, String>) -> (r: Option<Step>)
    ensures
        match (args, dist) {
            (Some(a), Ok(d)) => r matches Some(s) && s@ == StepView::Cmd(build_command(views(a@), d@), None),
            _ => r is None,
        },
{
    match (args, dist) {
        (Some(a), Ok(d)) => {
            let mut rest: Vec<String> = Vec::new();
            let mut i: usize = 2;
            let ghost av = views(a@);
            while i < a.len()
                invariant
                    2 <= i,
                    av == views(a@),
                    i <= a.len() || a.len() < 2,
                    i <= a.len() ==> views(rest@) == av.subrange(2, i as int),
                    a.len() < 2 ==> rest@.len() == 0,
                decreases a.len() - i,
            {
                let ghost before = views(rest@);
                assert(before == av.subrange(2, i as int));
                assert(av[i as int] == a[i as int]@);
                let item = a[i].clone();
                assert(item@ == av[i as int]);
                rest.push(item);
                assert(views(rest@) =~= before.push(av[i as int]));
                assert(views(rest@) =~= av.subrange(2, i + 1));
                i = i + 1;
            }
            assert(views(rest@) =~= after_two(av));
            let arch = if str_eq(d.as_str(), "arm64") {
                String::from_str("aarch64")
            } else if str_eq(d.as_str(), "amd64") {
                String::from_str("x86_64")
            } else {
                d.clone()
            };
            let mut c = String::from_str("BUILDARCH=");
            c.append(arch.as_str());
            c.append(" BUILDARCHI=");
            c.append(d.as_str());
            c.append(" docker compose build ");
            let names = join_exec(&rest, " ");
            c.append(names.as_str());
            Some(Step::Cmd(c, None))
        },
        _ => None,
    }
}

/// The directories that `download_conf` creates under the tool's home.
pub open spec fn conf_dirs() -> Seq<Seq<char>> {
    seq!["config"@, "network"@, "storage"@, "compute"@, "node"@, "hub"@, "lib"@, "logs"@, "bin"@]
}

/// The services whose configuration `download_conf` fetches.
pub open spec fn conf_services() -> Seq<Seq<char>> {
    seq!["network"@, "storage"@, "compute"@, "node"@, "hub"@]
}

/// Creating each directory under `root`, each command shown before it runs.
pub open spec fn mkdir_steps(root: Seq<char>, dirs: Seq<Seq<char>>) -> Seq<StepView>
    decreases dirs.len(),
{
    if dirs.len() == 0 {
        Seq::empty()
    } else {
        let c = "mkdir -p "@ + root + "/"@ + dirs.last();
        mkdir_steps(root, dirs.drop_last()) + seq![StepView::Echo(c), StepView::Cmd(c, Some(true))]
    }
}

/// Fetching the compose file and the environment of each service.
pub open spec fn fetch_steps(root: Seq<char>, services: Seq<Seq<char>>) -> Seq<StepView>
    decreases services.len(),
{
    if services.len() == 0 {
        Seq::empty()
    } else {
        let s = services.last();
        fetch_steps(root, services.drop_last()) + seq![
            StepView::Tty(
                "wget -q 'http://get.zakuro.ai/zk0?config="@ + s + "' -O "@ + root + "/"@ + s + "/"@ + s
                    + "-zakuro.yml"@,
            ),
            StepView::Tty("wget -q 'http://get.zakuro.ai/zk0?config="@ + s + "_env' -O "@ + root + "/"@ + s + "/.env"@),
        ]
    }
}

/// What `download_conf` does with the tool's home `root`.
pub open spec fn conf_steps(root: Seq<char>) -> Seq<StepView> {
    mkdir_steps(root, conf_dirs()) + seq![
        StepView::Tty("wget -q 'http://get.zakuro.ai/zk0?config=default' -O "@ + root + "/default-zakuro.yml"@),
    ] + fetch_steps(root, conf_services())
}

/// The names of `conf_dirs`.
fn conf_dir_names() -> (r: Vec<&'static str>)
    ensures
        r@.map_values(|s: &str| s@) == conf_dirs(),
{
    let r = vec!["config", "network", "storage", "compute", "node", "hub", "lib", "logs", "bin"];
    assert(r@.map_values(|s: &str| s@) =~= conf_dirs());
    r
}

/// The names of `conf_services`.
fn conf_service_names() -> (r: Vec<&'static str>)
    ensures
        r@.map_values(|s: &str| s@) == conf_services(),
{
    let r = vec!["network", "storage", "compute", "node", "hub"];
    assert(r@.map_values(|s: &str| s@) =~= conf_services());
    r
}

/// Creates the tool's directories under its home `zakuro_home` and fetches
/// the default configuration and each service's configuration; nothing
/// without a home.
pub fn download_conf(zakuro_home: Option<&str>) -> (r: Vec<Step>)
    ensures
        match zakuro_home {
            Some(root) => steps_view(r@) == conf_steps(root@),
            None => r@.len() == 0,
        },
{
    let mut out: Vec<Step> = Vec::new();
    let root = match zakuro_home {
        Some(root) => root,
        None => return out,
    };
    let dirs = conf_dir_names();
    let ghost dv = dirs@.map_values(|s: &str| s@);
    let mut i: usize = 0;
    while i < dirs.len()
        invariant
            i <= dirs.len(),
            dv == dirs@.map_values(|s: &str| s@),
            steps_view(out@) == mkdir_steps(root@, dv.take(i as int)),
        decreases dirs.len() - i,
    {
        assert(dv.take(i + 1).drop_last() =~= dv.take(i as int));
        assert(dv.take(i + 1).last() == dirs[i as int]@);
        let ghost before = steps_view(out@);
        let mut c = String::from_str("mkdir -p ");
        c.append(root);
        c.append("/");
        c.append(dirs[i]);
        let ghost cv = c@;
        out.push(Step::Echo(c.clone()));
        out.push(Step::Cmd(c, Some(true)));
        assert(steps_view(out@) =~= before + seq![StepView::Echo(cv), StepView::Cmd(cv, Some(true))]);
        i = i + 1;
    }
    assert(dv.take(dirs.len() as int) =~= dv);
    let ghost mid = steps_view(out@);
    let mut d = String::from_str("wget -q 'http://get.zakuro.ai/zk0?config=default' -O ");
    d.append(root);
    d.append("/default-zakuro.yml");
    let ghost dv2 = d@;
    out.push(Step::Tty(d));
    assert(steps_view(out@) =~= mid.push(StepView::Tty(dv2)));
    let ghost base = steps_view(out@);
    let services = conf_service_names();
    let ghost sv = services@.map_values(|s: &str| s@);
    let mut j: usize = 0;
    while j < services.len()
        invariant
            j <= services.len(),
            sv == services@.map_values(|s: &str| s@),
            steps_view(out@) == base + fetch_steps(root@, sv.take(j as int)),
        decreases services.len() - j,
    {
        assert(sv.take(j + 1).drop_last() =~= sv.take(j as int));
        assert(sv.take(j + 1).last() == services[j as int]@);
        let s = services[j];
        let ghost before = steps_view(out@);
        let mut a = String::from_str("wget -q 'http://get.zakuro.ai/zk0?config=");
        a.append(s);
        a.append("' -O ");
        a.append(root);
        a.append("/");
        a.append(s);
        a.append("/");
        a.append(s);
        a.append("-zakuro.yml");
        let mut b = String::from_str("wget -q 'http://get.zakuro.ai/zk0?config=");
        b.append(s);
        b.append("_env' -O ");
        b.append(root);
        b.append("/");
        b.append(s);
        b.append("/.env");
        let ghost (av, bv) = (a@, b@);
        out.push(Step::Tty(a));
        out.push(Step::Tty(b));
        assert(steps_view(out@) =~= before + seq![StepView::Tty(av), StepView::Tty(bv)]);
        assert(fetch_steps(root@, sv.take(j + 1)) =~= fetch_steps(root@, sv.take(j as int)) + seq![StepView::Tty(av), StepView::Tty(bv)]);
        j = j + 1;
    }
    assert(sv.take(services.len() as int) =~= sv);
    assert(steps_view(out@) =~= conf_steps(root@));
    out
}

/// The command that fetches the cluster credentials of the user with key
/// `auth` into the context directory `context`.
pub open spec fn auth_command(context: Seq<char>, auth: Seq<char>) -> Seq<char> {
    "curl -s --location --request GET 'https://get.zakuro.ai/profile' --header 'Content-Type: application/json' --data '{\"pkey\": \""@
        + auth + "\"}' > "@ + context + "/config/wg0.conf"@
}

/// Fetches the credentials; nothing without a context or without a key.
pub fn download_auth(context: Option<&str>, auth: Option<&str>) -> (r: Option<Step>)
    ensures
        match (context, auth) {
            (Some(c), Some(a)) => r matches Some(s) && s@ == StepView::Cmd(auth_command(c@, a@), Some(false)),
            _ => r is None,
        },
{
    match (context, auth) {
        (Some(c), Some(a)) => {
            let mut s = String::from_str(
                "curl -s --location --request GET 'https://get.zakuro.ai/profile' --header 'Content-Type: application/json' --data '{\"pkey\": \"",
            );
            s.append(a);
            s.append("\"}' > ");
            s.append(c);
            s.append("/config/wg0.conf");
            Some(Step::Cmd(s, Some(false)))
        },
        _ => None,
    }
}

/// The line of the configuration script that sets the context.
pub open spec fn context_marker() -> Seq<char> {
    "export ZAKURO_CONTEXT"@
}

/// The lines that do not set the context.
pub open spec fn other_lines(ls: Seq<Seq<char>>) -> Seq<Seq<char>>
    decreases ls.len(),
{
    if ls.len() == 0 {
        Seq::empty()
    } else {
        let k = other_lines(ls.drop_last());
        if contains_str(ls.last(), context_marker()) {
            k
        } else {
            k.push(ls.last())
        }
    }
}

/// The configuration script with its context set to `path`: every line that
/// sets the context dropped, and `export ZAKURO_CONTEXT=<path>` added last.
pub open spec fn with_context(script: Seq<char>, path: Seq<char>) -> Seq<char> {
    join(other_lines(split_char(script, '\n')).push(context_marker() + "="@ + path), "\n"@)
}

/// The configuration script `script` with its context set to `path`.
pub fn context(script: &str, path: &str) -> (r: String)
    ensures
        r@ == with_context(script@, path@),
{
    let ls = split_char_exec(script, '\n');
    let ghost lv = views(ls@);
    let mut kept: Vec<String> = Vec::new();
    let mut i: usize = 0;
    while i < ls.len()
        invariant
            i <= ls.len(),
            lv == views(ls@),
            views(kept@) == other_lines(lv.take(i as int)),
        decreases ls.len() - i,
    {
        assert(lv.take(i + 1).drop_last() =~= lv.take(i as int));
        assert(lv.take(i + 1).last() == ls[i as int]@);
        if !contains_exec(ls[i].as_str(), "export ZAKURO_CONTEXT") {
            let ghost before = views(kept@);
            kept.push(ls[i].clone());
            assert(views(kept@) =~= before.push(ls[i as int]@));
        }
        i = i + 1;
    }
    assert(lv.take(ls.len() as int) =~= lv);
    let mut line = String::from_str("export ZAKURO_CONTEXT");
    line.append("=");
    line.append(path);
    let ghost before = views(kept@);
    let ghost lview = line@;
    kept.push(line);
    assert(views(kept@) =~= before.push(lview));
    join_exec(&kept, "\n")
}

/// The version line: the package version, the commit and the build time;
/// nothing without a commit.
pub fn version_line(pkg_version: &str, commit: Option<&str>, built_time: &str) -> (r: Option<String>)
    ensures
        match commit {
            Some(c) => r matches Some(l) && l@ == "zc version "@ + pkg_version@ + ", build "@ + c@ + " on "@
                + built_time@,
            None => r is None,
        },
{
    match commit {
        Some(c) => {
            let mut l = String::from_str("zc version ");
            l.append(pkg_version);
            l.append(", build ");
            l.append(c);
            l.append(" on ");
            l.append(built_time);
            Some(l)
        },
        None => None,
    }
}

} // verus!

verus! {

proof fn lemma_other_lines_props(ls: Seq<Seq<char>>)
    ensures
        forall|k: int| 0 <= k < other_lines(ls).len() ==> !contains_str(#[trigger] other_lines(ls)[k], context_marker()),
        forall|k: int| 0 <= k < other_lines(ls).len() ==> exists|j: int| 0 <= j < ls.len() && #[trigger] other_lines(ls)[k] == ls[j],
    decreases ls.len(),
{
    if ls.len() > 0 {
        lemma_other_lines_props(ls.drop_last());
        let o = other_lines(ls.drop_last());
        assert forall|k: int| 0 <= k < other_lines(ls).len() implies exists|j: int| 0 <= j < ls.len() && #[trigger] other_lines(ls)[k] == ls[j] by {
            if k < o.len() {
                assert(other_lines(ls)[k] == o[k]);
                let j = choose|j: int| 0 <= j < ls.drop_last().len() && o[k] == ls.drop_last()[j];
                assert(ls.drop_last()[j] == ls[j]);
            } else {
                assert(other_lines(ls)[k] == ls[ls.len() - 1]);
            }
        }
        assert forall|k: int| 0 <= k < other_lines(ls).len() implies !contains_str(#[trigger] other_lines(ls)[k], context_marker()) by {
            if k < o.len() {
                assert(other_lines(ls)[k] == o[k]);
            }
        }
    }
}

proof fn lemma_other_lines_fixed(ls: Seq<Seq<char>>)
    requires
        forall|k: int| 0 <= k < ls.len() ==> !contains_str(#[trigger] ls[k], context_marker()),
    ensures
        other_lines(ls) == ls,
    decreases ls.len(),
{
    if ls.len() > 0 {
        let init = ls.drop_last();
        assert forall|k: int| 0 <= k < init.len() implies !contains_str(#[trigger] init[k], context_marker()) by {
            assert(init[k] == ls[k]);
        }
        lemma_other_lines_fixed(init);
        assert(!contains_str(ls[ls.len() - 1], context_marker()));
        assert(init.push(ls.last()) =~= ls);
    }
}

/// Setting the context twice leaves only the second: the line the first one
/// wrote is dropped, every other line stays in order. (A first path with a
/// line break would leave part of its line behind, so it is left out.)
pub proof fn lemma_context_replaces(script: Seq<char>, p1: Seq<char>, p2: Seq<char>)
    requires
        !p1.contains('\n'),
    ensures
        with_context(with_context(script, p1), p2) == with_context(script, p2),
{
    reveal_strlit("\n");
    reveal_strlit("=");
    reveal_strlit("export ZAKURO_CONTEXT");
    assert("\n"@ =~= seq!['\n']);
    let parts = split_char(script, '\n');
    let k = other_lines(parts);
    let l1 = context_marker() + "="@ + p1;
    crate::text::lemma_split_char_pieces(script, '\n');
    lemma_other_lines_props(parts);
    let xs = k.push(l1);
    assert forall|i: int| 0 <= i < xs.len() implies !(#[trigger] xs[i]).contains('\n') by {
        if i < k.len() {
            assert(xs[i] == k[i]);
            let j = choose|j: int| 0 <= j < parts.len() && k[i] == parts[j];
            assert(!parts[j].contains('\n'));
        } else {
            assert(xs[i] == l1);
            if l1.contains('\n') {
                let j = choose|j: int| 0 <= j < l1.len() && l1[j] == '\n';
                if j >= context_marker().len() + 1 {
                    assert(p1[j - context_marker().len() - 1] == '\n');
                }
            }
        }
    }
    crate::text::lemma_split_join(xs, '\n');
    assert(l1.subrange(0, context_marker().len() as int) =~= context_marker());
    assert(crate::text::occurs_at(l1, context_marker(), 0));
    assert(xs.drop_last() =~= k);
    assert(other_lines(xs) == other_lines(k));
    lemma_other_lines_fixed(k);
}

} // verus!

verus! {

/// The build command names the architecture: `arm64` is built as `aarch64`,
/// `amd64` as `x86_64`, and every other architecture (such as `x86_64` or
/// `aarch64`, what `uname -m` answers) as itself; the machine's own
/// architecture is passed alongside, unchanged.
pub proof fn lemma_build_arch(args: Seq<Seq<char>>, d: Seq<char>)
    ensures
        d != "arm64"@ && d != "amd64"@ ==> build_command(args, d) == "BUILDARCH="@ + d + " BUILDARCHI="@ + d
            + " docker compose build "@ + join(after_two(args), " "@),
        build_command(args, "arm64"@) == "BUILDARCH="@ + "aarch64"@ + " BUILDARCHI="@ + "arm64"@
            + " docker compose build "@ + join(after_two(args), " "@),
        build_command(args, "amd64"@) == "BUILDARCH="@ + "x86_64"@ + " BUILDARCHI="@ + "amd64"@
            + " docker compose build "@ + join(after_two(args), " "@),
{
    reveal_strlit("arm64");
    reveal_strlit("amd64");
    assert("amd64"@[1] != "arm64"@[1]);
    assert("amd64"@ != "arm64"@);
}

/// The steps of `download_conf`: it creates exactly the directories
/// `config`, `network`, `storage`, `compute`, `node`, `hub`, `lib`, `logs`
/// and `bin` under the home, in that order, each shown and then run; then
/// it fetches the default configuration; then, for `network`, `storage`,
/// `compute`, `node` and `hub` in turn, it fetches the service's compose
/// file and environment into `<home>/<service>/`, a directory created
/// before.
pub proof fn lemma_conf_dirs_before_fetch(root: Seq<char>)
    ensures
        ({
            let dirs = seq!["config"@, "network"@, "storage"@, "compute"@, "node"@, "hub"@, "lib"@, "logs"@, "bin"@];
            let svcs = seq!["network"@, "storage"@, "compute"@, "node"@, "hub"@];
            let st = conf_steps(root);
            &&& st.len() == 29
            &&& forall|k: int|
                0 <= k < 9 ==> st[2 * k] == StepView::Echo("mkdir -p "@ + root + "/"@ + #[trigger] dirs[k]) && st[2
                    * k + 1] == StepView::Cmd("mkdir -p "@ + root + "/"@ + dirs[k], Some(true))
            &&& st[18] == StepView::Tty("wget -q 'http://get.zakuro.ai/zk0?config=default' -O "@ + root
                + "/default-zakuro.yml"@)
            &&& forall|j: int|
                0 <= j < 5 ==> st[19 + 2 * j] == StepView::Tty(
                    "wget -q 'http://get.zakuro.ai/zk0?config="@ + #[trigger] svcs[j] + "' -O "@ + root + "/"@ + svcs[j]
                        + "/"@ + svcs[j] + "-zakuro.yml"@,
                ) && st[20 + 2 * j] == StepView::Tty(
                    "wget -q 'http://get.zakuro.ai/zk0?config="@ + svcs[j] + "_env' -O "@ + root + "/"@ + svcs[j]
                        + "/.env"@,
                ) && exists|k: int|
                    0 <= k < 9 && 2 * k + 1 < 19 + 2 * j && #[trigger] st[2 * k + 1] == StepView::Cmd(
                        "mkdir -p "@ + root + "/"@ + svcs[j],
                        Some(true),
                    )
        }),
{
    let dirs = seq!["config"@, "network"@, "storage"@, "compute"@, "node"@, "hub"@, "lib"@, "logs"@, "bin"@];
    let svcs = seq!["network"@, "storage"@, "compute"@, "node"@, "hub"@];
    assert(conf_dirs() == dirs);
    assert(conf_services() == svcs);
    lemma_mkdir_steps(root, dirs);
    lemma_fetch_steps(root, svcs);
    let st = conf_steps(root);
    let m = mkdir_steps(root, dirs);
    let f = fetch_steps(root, svcs);
    assert(st == m + seq![
        StepView::Tty("wget -q 'http://get.zakuro.ai/zk0?config=default' -O "@ + root + "/default-zakuro.yml"@),
    ] + f);
    assert forall|k: int| 0 <= k < 9 implies st[2 * k] == StepView::Echo(
        "mkdir -p "@ + root + "/"@ + #[trigger] dirs[k],
    ) && st[2 * k + 1] == StepView::Cmd("mkdir -p "@ + root + "/"@ + dirs[k], Some(true)) by {
        assert(st[2 * k] == m[2 * k]);
        assert(st[2 * k + 1] == m[2 * k + 1]);
    }
    assert forall|j: int| 0 <= j < 5 implies st[19 + 2 * j] == StepView::Tty(
        "wget -q 'http://get.zakuro.ai/zk0?config="@ + #[trigger] svcs[j] + "' -O "@ + root + "/"@ + svcs[j] + "/"@
            + svcs[j] + "-zakuro.yml"@,
    ) && st[20 + 2 * j] == StepView::Tty(
        "wget -q 'http://get.zakuro.ai/zk0?config="@ + svcs[j] + "_env' -O "@ + root + "/"@ + svcs[j] + "/.env"@,
    ) && exists|k: int|
        0 <= k < 9 && 2 * k + 1 < 19 + 2 * j && #[trigger] st[2 * k + 1] == StepView::Cmd(
            "mkdir -p "@ + root + "/"@ + svcs[j],
            Some(true),
        ) by {
        let k = j + 1;
        assert(dirs[k] == svcs[j]);
        assert(st[2 * k + 1] == m[2 * k + 1]);
        assert(st[19 + 2 * j] == f[2 * j]);
        assert(st[20 + 2 * j] == f[2 * j + 1]);
    }
}

/// The `k`-th directory is created by steps `2k` (shown) and `2k + 1` (run).
proof fn lemma_mkdir_steps(root: Seq<char>, dirs: Seq<Seq<char>>)
    ensures
        mkdir_steps(root, dirs).len() == 2 * dirs.len(),
        forall|k: int|
            0 <= k < dirs.len() ==> mkdir_steps(root, dirs)[2 * k] == StepView::Echo(
                "mkdir -p "@ + root + "/"@ + #[trigger] dirs[k],
            ) && mkdir_steps(root, dirs)[2 * k + 1] == StepView::Cmd("mkdir -p "@ + root + "/"@ + dirs[k], Some(true)),
    decreases dirs.len(),
{
    if dirs.len() > 0 {
        let init = dirs.drop_last();
        lemma_mkdir_steps(root, init);
        assert forall|k: int| 0 <= k < dirs.len() implies mkdir_steps(root, dirs)[2 * k] == StepView::Echo(
            "mkdir -p "@ + root + "/"@ + #[trigger] dirs[k],
        ) && mkdir_steps(root, dirs)[2 * k + 1] == StepView::Cmd("mkdir -p "@ + root + "/"@ + dirs[k], Some(true)) by {
            if k < dirs.len() - 1 {
                assert(dirs[k] == init[k]);
            }
        }
    }
}

/// The `j`-th service's compose file and environment are fetched by steps
/// `2j` and `2j + 1`.
proof fn lemma_fetch_steps(root: Seq<char>, svcs: Seq<Seq<char>>)
    ensures
        fetch_steps(root, svcs).len() == 2 * svcs.len(),
        forall|j: int|
            0 <= j < svcs.len() ==> fetch_steps(root, svcs)[2 * j] == StepView::Tty(
                "wget -q 'http://get.zakuro.ai/zk0?config="@ + #[trigger] svcs[j] + "' -O "@ + root + "/"@ + svcs[j] + "/"@
                    + svcs[j] + "-zakuro.yml"@,
            ) && fetch_steps(root, svcs)[2 * j + 1] == StepView::Tty(
                "wget -q 'http://get.zakuro.ai/zk0?config="@ + svcs[j] + "_env' -O "@ + root + "/"@ + svcs[j] + "/.env"@,
            ),
    decreases svcs.len(),
{
    if svcs.len() > 0 {
        let init = svcs.drop_last();
        lemma_fetch_steps(root, init);
        assert forall|j: int| 0 <= j < svcs.len() implies fetch_steps(root, svcs)[2 * j] == StepView::Tty(
            "wget -q 'http://get.zakuro.ai/zk0?config="@ + #[trigger] svcs[j] + "' -O "@ + root + "/"@ + svcs[j] + "/"@
                + svcs[j] + "-zakuro.yml"@,
        ) && fetch_steps(root, svcs)[2 * j + 1] == StepView::Tty(
            "wget -q 'http://get.zakuro.ai/zk0?config="@ + svcs[j] + "_env' -O "@ + root + "/"@ + svcs[j] + "/.env"@,
        ) by {
            if j < svcs.len() - 1 {
                assert(svcs[j] == init[j]);
            }
        }
    }
}

} // verus!
