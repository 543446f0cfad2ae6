//! The tool's environment: its configuration file, the variables it exports,
//! and the expansion of `$NAME` references in path lists.
use vstd::prelude::*;
use crate::text::{
    dedup, dedup_exec, ends_with, lines, lines_exec, join, join_exec, replace, replace_exec, split_char, split_char_exec,
    split_once, split_once_exec, starts_with, lemma_prefix_char, lemma_suffix_char, lemma_dedup,
    lemma_split_char_len, lemma_split_char_pieces, lemma_split_join, lemma_first_char, first_char, str_eq, trim, trim_exec, views,
};

verus! {

/// Where the configuration script lives.
pub const CONFIG_FILE: &'static str = "/opt/zakuro/etc/profile.d/zk0.sh";

/// The directory of the configuration script.
pub const CONFIG_DIR: &'static str = "/opt/zakuro/etc/profile.d";

/// The map that a list of assignments leaves: a later assignment of a name
/// replaces an earlier one.
pub open spec fn pairs_map(ps: Seq<(Seq<char>, Seq<char>)>) -> Map<Seq<char>, Seq<char>>
    decreases ps.len(),
{
    if ps.len() == 0 {
        Map::empty()
    } else {
        pairs_map(ps.drop_last()).insert(ps.last().0, ps.last().1)
    }
}

/// The views of a sequence of string pairs.
pub open spec fn pair_views(v: Seq<(String, String)>) -> Seq<(Seq<char>, Seq<char>)> {
    v.map_values(|p: (String, String)| (p.0@, p.1@))
}

/// A set of environment variables: names mapped to values.
#[derive(Debug, Clone)]
pub struct Env {
    entries: Vec<(String, String)>,
}

impl View for Env {
    type V = Map<Seq<char>, Seq<char>>;

    closed spec fn view(&self) -> Map<Seq<char>, Seq<char>> {
        pairs_map(pair_views(self.entries@))
    }
}

/// Assignments after the first `i` leave the value of `k` alone when none of
/// them names `k`.
proof fn lemma_pairs_map_tail(ps: Seq<(Seq<char>, Seq<char>)>, k: Seq<char>, i: int)
    requires
        0 <= i <= ps.len(),
        forall|j: int| i <= j < ps.len() ==> #[trigger] ps[j].0 != k,
    ensures
        pairs_map(ps).contains_key(k) == pairs_map(ps.take(i)).contains_key(k),
        pairs_map(ps)[k] == pairs_map(ps.take(i))[k],
    decreases ps.len() - i,
{
    if i < ps.len() {
        assert(ps.take(i + 1).drop_last() =~= ps.take(i));
        assert(ps.take(i + 1).last() == ps[i]);
        lemma_pairs_map_tail(ps, k, i + 1);
    } else {
        assert(ps.take(i) =~= ps);
    }
}

impl Env {
    /// The empty environment.
    pub fn new() -> (r: Env)
        ensures
            r@ == Map::<Seq<char>, Seq<char>>::empty(),
    {
        let r = Env { entries: Vec::new() };
        assert(pair_views(r.entries@) =~= Seq::empty());
        r
    }

    /// Sets `key` to `value`.
    pub fn set(&mut self, key: String, value: String)
        ensures
            final(self)@ == old(self)@.insert(key@, value@),
    {
        let ghost before = pair_views(self.entries@);
        let ghost kv = (key@, value@);
        self.entries.push((key, value));
        assert(pair_views(self.entries@) =~= before.push(kv));
        assert(pair_views(self.entries@).drop_last() =~= before);
    }

    /// The value of `key`, if it is set.
    pub fn get(&self, key: &str) -> (r: Option<String>)
        ensures
            r is Some <==> self@.contains_key(key@),
            r matches Some(v) ==> v@ == self@[key@],
    {
        let ghost ps = pair_views(self.entries@);
        let mut i: usize = self.entries.len();
        while i > 0
            invariant
                i <= self.entries.len(),
                ps == pair_views(self.entries@),
                forall|j: int| i <= j < ps.len() ==> #[trigger] ps[j].0 != key@,
            decreases i,
        {
            let ghost before = ps.take(i as int);
            assert(before.drop_last() =~= ps.take(i - 1));
            if str_eq(self.entries[i - 1].0.as_str(), key) {
                proof {
                    lemma_pairs_map_tail(ps, key@, i as int);
                }
                return Some(self.entries[i - 1].1.clone());
            }
            i = i - 1;
        }
        proof {
            lemma_pairs_map_tail(ps, key@, 0);
            assert(ps.take(0) =~= Seq::<(Seq<char>, Seq<char>)>::empty());
        }
        None
    }

    /// The environment holding exactly the given assignments, later ones
    /// replacing earlier ones.
    pub fn from_pairs(pairs: Vec<(String, String)>) -> (r: Env)
        ensures
            r@ == pairs_map(pair_views(pairs@)),
    {
        Env { entries: pairs }
    }
}

/// The path of the `docker` binary: the system one if it exists.
pub fn docker(usr_bin_docker_exists: bool) -> (r: String)
    ensures
        r@ == (if usr_bin_docker_exists { "/usr/bin/docker"@ } else { "/usr/local/bin/docker"@ }),
{
    if usr_bin_docker_exists {
        String::from_str("/usr/bin/docker")
    } else {
        String::from_str("/usr/local/bin/docker")
    }
}

/// The path of the `nmap` binary: the Homebrew one if it exists.
pub fn nmap(homebrew_nmap_exists: bool) -> (r: String)
    ensures
        r@ == (if homebrew_nmap_exists { "/opt/homebrew/bin/nmap"@ } else { "/usr/bin/nmap"@ }),
{
    if homebrew_nmap_exists {
        String::from_str("/opt/homebrew/bin/nmap")
    } else {
        String::from_str("/usr/bin/nmap")
    }
}

/// A `NAME=value` line read as an assignment: both sides trimmed.
pub open spec fn exported_variable(line: Seq<char>) -> Option<(Seq<char>, Seq<char>)> {
    match split_once(line, '=') {
        Some((k, v)) => Some((trim(k), trim(v))),
        None => None,
    }
}

/// Reads `NAME=value`: the text before the first `=` and the text after it,
/// both trimmed; `None` without an `=`.
pub fn parse_exported_variable(line: &str) -> (r: Option<(String, String)>)
    ensures
        r is Some <==> exported_variable(line@) is Some,
        r matches Some(p) ==> exported_variable(line@) == Some((p.0@, p.1@)),
{
    match split_once_exec(line, '=') {
        Some((k, v)) => Some((trim_exec(k.as_str()), trim_exec(v.as_str()))),
        None => None,
    }
}

} // verus!

verus! {

/// One `/`-separated piece of a path after expansion: `$NAME` becomes the
/// value of `NAME` when it is set; in a path of several pieces, a plain piece
/// gets a `/` in front.
pub open spec fn expand_piece(piece: Seq<char>, several: bool, env: Map<Seq<char>, Seq<char>>) -> Seq<char> {
    if piece.len() > 0 && piece[0] == '$' {
        if env.contains_key(piece.drop_first()) {
            env[piece.drop_first()]
        } else {
            piece
        }
    } else if several {
        seq!['/'] + piece
    } else {
        piece
    }
}

/// The expanded pieces, concatenated.
pub open spec fn expand_pieces(ps: Seq<Seq<char>>, several: bool, env: Map<Seq<char>, Seq<char>>) -> Seq<char>
    decreases ps.len(),
{
    if ps.len() == 0 {
        Seq::empty()
    } else {
        expand_pieces(ps.drop_last(), several, env) + expand_piece(ps.last(), several, env)
    }
}

/// A path with its `/`-separated pieces expanded.
pub open spec fn expand_path(p: Seq<char>, env: Map<Seq<char>, Seq<char>>) -> Seq<char> {
    let ps = split_char(p, '/');
    expand_pieces(ps, ps.len() > 1, env)
}

/// Each path expanded and followed by `:`.
pub open spec fn expand_paths(paths: Seq<Seq<char>>, env: Map<Seq<char>, Seq<char>>) -> Seq<char>
    decreases paths.len(),
{
    if paths.len() == 0 {
        Seq::empty()
    } else {
        expand_paths(paths.drop_last(), env) + expand_path(paths.last(), env) + seq![':']
    }
}

/// Drops one trailing `:`.
pub open spec fn drop_colon(s: Seq<char>) -> Seq<char> {
    if s.len() > 0 && s.last() == ':' {
        s.drop_last()
    } else {
        s
    }
}

/// What the expansion of a `:`-separated path list gives: a value in single
/// quotes stays as it is; otherwise each path is expanded, `//` becomes `/`,
/// and each resulting path is kept once.
pub open spec fn evaluated(s: Seq<char>, env: Map<Seq<char>, Seq<char>>) -> Seq<char> {
    if s.len() > 0 && s[0] == '\'' {
        s
    } else {
        let joined = drop_colon(expand_paths(split_char(s, ':'), env));
        let cleaned = replace(joined, seq!['/', '/'], seq!['/']);
        join(dedup(split_char(cleaned, ':')), seq![':'])
    }
}

/// Appends the expansion of `path` to `out`.
fn expand_path_into(path: &str, env: &Env, out: &mut String)
    ensures
        final(out)@ == old(out)@ + expand_path(path@, env@),
{
    let pieces = split_char_exec(path, '/');
    let several = pieces.len() > 1;
    let ghost ps = views(pieces@);
    let ghost start = out@;
    let mut i: usize = 0;
    proof {
        reveal_strlit("/");
        reveal_strlit("$");
    }
    while i < pieces.len()
        invariant
            i <= pieces.len(),
            ps == views(pieces@),
            ps == split_char(path@, '/'),
            several == (ps.len() > 1),
            out@ == start + expand_pieces(ps.take(i as int), several, env@),
            "/"@ == seq!['/'],
            "$"@ == seq!['$'],
        decreases pieces.len() - i,
    {
        assert(ps.take(i + 1).drop_last() =~= ps.take(i as int));
        assert(ps.take(i + 1).last() == pieces[i as int]@);
        let piece = pieces[i].as_str();
        let ghost before = out@;
        proof {
            lemma_prefix_char('$', piece@);
        }
        if starts_with(piece, "$") {
            let n = piece.unicode_len();
            let name = piece.substring_char(1, n);
            assert(name@ =~= piece@.drop_first());
            match env.get(name) {
                Some(v) => out.append(v.as_str()),
                None => out.append(piece),
            }
        } else {
            if several {
                out.append("/");
            }
            out.append(piece);
        }
        assert(out@ =~= before + expand_piece(piece@, several, env@));
        i = i + 1;
    }
    assert(ps.take(pieces.len() as int) =~= ps);
}

/// Expands a `:`-separated list of paths: `$NAME` pieces take the value of
/// `NAME` in `env` when it is set, `//` becomes `/`, and each path is kept at
/// its first occurrence. A value that starts with a single quote is returned
/// as it is.
pub fn evaluate_expr(s1: &str, env: &Env) -> (r: String)
    ensures
        r@ == evaluated(s1@, env@),
{
    proof {
        reveal_strlit("'");
        reveal_strlit(":");
        reveal_strlit("//");
        reveal_strlit("/");
    }
    proof {
        lemma_prefix_char('\'', s1@);
        assert("'"@ =~= seq!['\'']);
        assert(":"@ =~= seq![':']);
        assert("/"@ =~= seq!['/']);
    }
    if starts_with(s1, "'") {
        return String::from_str(s1);
    }
    let paths = split_char_exec(s1, ':');
    let ghost ps = views(paths@);
    let mut output = String::new();
    let mut i: usize = 0;
    while i < paths.len()
        invariant
            i <= paths.len(),
            ps == views(paths@),
            output@ == expand_paths(ps.take(i as int), env@),
            ":"@ == seq![':'],
        decreases paths.len() - i,
    {
        assert(ps.take(i + 1).drop_last() =~= ps.take(i as int));
        assert(ps.take(i + 1).last() == paths[i as int]@);
        expand_path_into(paths[i].as_str(), env, &mut output);
        output.append(":");
        i = i + 1;
    }
    assert(ps.take(paths.len() as int) =~= ps);
    let n = output.as_str().unicode_len();
    proof {
        lemma_suffix_char(':', output@);
    }
    let trimmed = if ends_with(output.as_str(), ":") {
        let t = String::from_str(output.as_str().substring_char(0, n - 1));
        assert(t@ =~= output@.drop_last());
        t
    } else {
        output
    };
    assert("//"@ =~= seq!['/', '/']);
    let cleaned = replace_exec(trimmed.as_str(), "//", "/");
    let parts = split_char_exec(cleaned.as_str(), ':');
    let unique = dedup_exec(&parts);
    assert(trimmed@ == drop_colon(expand_paths(split_char(s1@, ':'), env@)));
    join_exec(&unique, ":")
}

/// The same expansion as `evaluate_expr`.
pub fn eval(s1: &str, env: &Env) -> (r: String)
    ensures
        r@ == evaluated(s1@, env@),
{
    evaluate_expr(s1, env)
}

/// Drops a leading `/`; an empty string is an error.
pub fn skip_first_char_if_slash(output: &str) -> (r: Result<String, String>)
    ensures
        output@.len() == 0 <==> r is Err,
        r matches Err(e) ==> e@ == "String is empty!"@,
        r matches Ok(v) ==> v@ == (if output@[0] == '/' { output@.drop_first() } else { output@ }),
{
    let n = output.unicode_len();
    if n > 0 && output.get_char(0) == '/' {
        let t = String::from_str(output.substring_char(1, n));
        assert(t@ =~= output@.drop_first());
        Ok(t)
    } else if n > 0 {
        Ok(String::from_str(output))
    } else {
        Err(String::from_str("String is empty!"))
    }
}

} // verus!

verus! {

/// The assignments that the `NAME=value` lines among `ls` make.
pub open spec fn line_assignments(ls: Seq<Seq<char>>) -> Seq<(Seq<char>, Seq<char>)>
    decreases ls.len(),
{
    if ls.len() == 0 {
        Seq::empty()
    } else {
        let a = line_assignments(ls.drop_last());
        match exported_variable(ls.last()) {
            Some(p) => a.push(p),
            None => a,
        }
    }
}

/// The command whose output lists the variables that the configuration
/// script exports.
pub fn vars_command() -> (r: String)
    ensures
        r@ == "source "@ + CONFIG_FILE@ + " && env"@,
{
    let mut r = String::from_str("source ");
    r.append(CONFIG_FILE);
    r.append(" && env");
    r
}

/// The variables listed in `output`, one `NAME=value` per line; a later line
/// for a name wins.
pub fn vars(output: &str) -> (r: Env)
    ensures
        r@ == pairs_map(line_assignments(lines(output@))),
{
    let ls = lines_exec(output);
    let ghost lv = views(ls@);
    let mut pairs: Vec<(String, String)> = Vec::new();
    let mut i: usize = 0;
    while i < ls.len()
        invariant
            i <= ls.len(),
            lv == views(ls@),
            lv == lines(output@),
            pair_views(pairs@) == line_assignments(lv.take(i as int)),
        decreases ls.len() - i,
    {
        assert(lv.take(i + 1).drop_last() =~= lv.take(i as int));
        assert(lv.take(i + 1).last() == ls[i as int]@);
        match parse_exported_variable(ls[i].as_str()) {
            Some(p) => {
                let ghost before = pair_views(pairs@);
                let ghost pv = (p.0@, p.1@);
                pairs.push(p);
                assert(pair_views(pairs@) =~= before.push(pv));
            },
            None => {},
        }
        i = i + 1;
    }
    assert(lv.take(ls.len() as int) =~= lv);
    Env::from_pairs(pairs)
}

/// One line of the configuration script applied to the environment: a
/// `NAME=value` line sets `NAME`, to its expanded value, only when `NAME` is
/// not set yet.
pub open spec fn update_line(line: Seq<char>, env: Map<Seq<char>, Seq<char>>) -> Option<(Seq<char>, Seq<char>)> {
    match split_once(line, '=') {
        Some((k, v)) => if env.contains_key(k) {
            None
        } else {
            Some((k, evaluated(v, env)))
        },
        None => None,
    }
}

/// The environment after the lines `ls`, and the assignments they made.
pub open spec fn updated(ls: Seq<Seq<char>>, env: Map<Seq<char>, Seq<char>>) -> (Map<Seq<char>, Seq<char>>, Seq<(Seq<char>, Seq<char>)>)
    decreases ls.len(),
{
    if ls.len() == 0 {
        (env, Seq::empty())
    } else {
        let (e, a) = updated(ls.drop_last(), env);
        match update_line(ls.last(), e) {
            Some((k, v)) => (e.insert(k, v), a.push((k, v))),
            None => (e, a),
        }
    }
}

/// The commands that create the configuration script when it is missing.
pub fn update_setup_commands() -> (r: Vec<String>)
    ensures
        views(r@) == seq![
            "sudo mkdir -p "@ + CONFIG_DIR@,
            "sudo chown -R $USER "@ + CONFIG_DIR@,
            "wget -q 'http://get.zakuro.ai/env' -O "@ + CONFIG_FILE@,
        ],
{
    let mut a = String::from_str("sudo mkdir -p ");
    a.append(CONFIG_DIR);
    let mut b = String::from_str("sudo chown -R $USER ");
    b.append(CONFIG_DIR);
    let mut c = String::from_str("wget -q 'http://get.zakuro.ai/env' -O ");
    c.append(CONFIG_FILE);
    let r = vec![a, b, c];
    assert(views(r@) =~= seq![a@, b@, c@]);
    r
}

/// Applies the configuration script `script` to `env`: each `NAME=value`
/// line whose name is not set yet sets it to the expansion of `value`
/// (under the variables set so far). Returns the assignments made, in order.
pub fn update(script: &str, env: &mut Env) -> (r: Vec<(String, String)>)
    ensures
        final(env)@ == updated(lines(script@), old(env)@).0,
        pair_views(r@) == updated(lines(script@), old(env)@).1,
{
    let ls = lines_exec(script);
    let ghost lv = views(ls@);
    let ghost env0 = env@;
    let mut made: Vec<(String, String)> = Vec::new();
    let mut i: usize = 0;
    while i < ls.len()
        invariant
            i <= ls.len(),
            lv == views(ls@),
            lv == lines(script@),
            env@ == updated(lv.take(i as int), env0).0,
            pair_views(made@) == updated(lv.take(i as int), env0).1,
        decreases ls.len() - i,
    {
        assert(lv.take(i + 1).drop_last() =~= lv.take(i as int));
        assert(lv.take(i + 1).last() == ls[i as int]@);
        match split_once_exec(ls[i].as_str(), '=') {
            Some((k, v)) => {
                if env.get(k.as_str()).is_none() {
                    let value = evaluate_expr(v.as_str(), env);
                    let ghost before = pair_views(made@);
                    let ghost kv = (k@, value@);
                    made.push((k.clone(), value.clone()));
                    assert(pair_views(made@) =~= before.push(kv));
                    env.set(k, value);
                }
            },
            None => {},
        }
        i = i + 1;
    }
    assert(lv.take(ls.len() as int) =~= lv);
    made
}

/// Running the configuration script never changes a variable that was
/// already set.
pub proof fn lemma_update_keeps_existing(ls: Seq<Seq<char>>, env: Map<Seq<char>, Seq<char>>, k: Seq<char>)
    requires
        env.contains_key(k),
    ensures
        updated(ls, env).0.contains_key(k),
        updated(ls, env).0[k] == env[k],
    decreases ls.len(),
{
    if ls.len() > 0 {
        lemma_update_keeps_existing(ls.drop_last(), env, k);
    }
}

/// The name that a `NAME=value` line assigns.
pub open spec fn line_name(line: Seq<char>) -> Option<Seq<char>> {
    match split_once(line, '=') {
        Some((k, _)) => Some(k),
        None => None,
    }
}

/// After the lines have run, every name they assign is set.
proof fn lemma_update_sets_names(ls: Seq<Seq<char>>, env: Map<Seq<char>, Seq<char>>)
    ensures
        forall|i: int| #![trigger ls[i]]
            0 <= i < ls.len() && line_name(ls[i]) is Some ==> updated(ls, env).0.contains_key(line_name(ls[i])->0),
    decreases ls.len(),
{
    if ls.len() > 0 {
        let init = ls.drop_last();
        lemma_update_sets_names(init, env);
        assert forall|i: int| #![trigger ls[i]]
            0 <= i < ls.len() && line_name(ls[i]) is Some implies updated(ls, env).0.contains_key(line_name(ls[i])->0) by {
            if i < ls.len() - 1 {
                assert(ls[i] == init[i]);
            }
        }
    }
}

/// Lines whose names are all set already change nothing.
proof fn lemma_update_noop(ls: Seq<Seq<char>>, env: Map<Seq<char>, Seq<char>>)
    requires
        forall|i: int| #![trigger ls[i]]
            0 <= i < ls.len() && line_name(ls[i]) is Some ==> env.contains_key(line_name(ls[i])->0),
    ensures
        updated(ls, env) == (env, Seq::<(Seq<char>, Seq<char>)>::empty()),
    decreases ls.len(),
{
    if ls.len() > 0 {
        let init = ls.drop_last();
        assert forall|i: int| #![trigger init[i]]
            0 <= i < init.len() && line_name(init[i]) is Some implies env.contains_key(line_name(init[i])->0) by {
            assert(init[i] == ls[i]);
        }
        lemma_update_noop(init, env);
        assert(ls[ls.len() - 1] == ls.last());
    }
}

/// Running the configuration script a second time changes nothing and
/// assigns nothing.
pub proof fn lemma_update_twice(ls: Seq<Seq<char>>, env: Map<Seq<char>, Seq<char>>)
    ensures
        updated(ls, updated(ls, env).0) == (updated(ls, env).0, Seq::<(Seq<char>, Seq<char>)>::empty()),
{
    lemma_update_sets_names(ls, env);
    lemma_update_noop(ls, updated(ls, env).0);
}

} // verus!

verus! {

/// An expanded path list names each path once, and names exactly the paths
/// of the expansion (after `//` became `/`): its `:`-separated pieces are
/// distinct and are the pieces of the expansion.
pub proof fn lemma_evaluated_paths(s: Seq<char>, env: Map<Seq<char>, Seq<char>>)
    requires
        !(s.len() > 0 && s[0] == '\''),
    ensures
        split_char(evaluated(s, env), ':').no_duplicates(),
        forall|p: Seq<char>|
            #[trigger] split_char(evaluated(s, env), ':').contains(p) <==> split_char(
                replace(drop_colon(expand_paths(split_char(s, ':'), env)), seq!['/', '/'], seq!['/']),
                ':',
            ).contains(p),
{
    let joined = drop_colon(expand_paths(split_char(s, ':'), env));
    let cleaned = replace(joined, seq!['/', '/'], seq!['/']);
    let parts = split_char(cleaned, ':');
    let d = dedup(parts);
    lemma_dedup(parts);
    lemma_split_char_len(cleaned, ':');
    lemma_split_char_pieces(cleaned, ':');
    assert forall|k: int| 0 <= k < d.len() implies !(#[trigger] d[k]).contains(':') by {
        assert(parts.contains(d[k]));
        let j = choose|j: int| 0 <= j < parts.len() && parts[j] == d[k];
        assert(!parts[j].contains(':'));
    }
    lemma_split_join(d, ':');
}

/// Writing `NAME=value` and reading it back gives the trimmed name and value,
/// when the name holds no `=`.
pub proof fn lemma_exported_variable_roundtrip(name: Seq<char>, value: Seq<char>)
    requires
        !name.contains('='),
    ensures
        exported_variable(name + seq!['='] + value) == Some((trim(name), trim(value))),
{
    let line = name + seq!['='] + value;
    lemma_first_char(line, '=');
    let f = first_char(line, '=');
    assert(line[name.len() as int] == '=');
    assert(f == name.len()) by {
        if f < 0 {
        } else if f < name.len() {
            assert(line[f] == name[f]);
            assert(name.contains('='));
        } else if f > name.len() {
        }
    }
    assert(line.take(f) =~= name);
    assert(line.skip(f + 1) =~= value);
}

} // verus!
