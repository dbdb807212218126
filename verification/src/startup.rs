//! The configuration overrides that the evaluator's app server starts with: TOML
//! strings, the filesystem permission table and the list of `-c` arguments.

use vstd::prelude::*;
use crate::config::AgentConfig;
use crate::output::{json_string, json_string_text};
use crate::permissions::{
    as_config_args, evaluator_startup_root_permissions, isolation_values, push_config_arg,
    push_evaluator_context_isolation_args, string_views, thread_reuse_carryover_token_target_arg,
    ThreadReuseConfig,
};
use crate::text::{chars_of, push_char, push_chars};
use crate::validation::{codex_reasoning_effort, reasoning_effort};

verus! {

/// The uppercase hexadecimal digit for `d < 16`.
pub open spec fn upper_hex_digit(d: nat) -> char {
    if d < 10 {
        (48 + d) as char
    } else {
        (55 + d) as char
    }
}

/// The last `count` uppercase hexadecimal digits of `n`, most significant first.
pub open spec fn upper_hex_digits(n: nat, count: nat) -> Seq<char>
    decreases count,
{
    if count == 0 {
        Seq::empty()
    } else {
        upper_hex_digits(n / 16, (count - 1) as nat).push(upper_hex_digit(n % 16))
    }
}

/// How a character of a JSON string appears in a TOML basic string: DEL and the C1
/// controls, which TOML forbids and JSON keeps, become `\uXXXX`.
pub open spec fn toml_char(c: char) -> Seq<char> {
    let u = c as u32;
    if 0x7f <= u <= 0x9f {
        seq!['\\', 'u'] + upper_hex_digits(u as nat, 4)
    } else {
        seq![c]
    }
}

pub open spec fn toml_patch(s: Seq<char>) -> Seq<char>
    decreases s.len(),
{
    if s.len() == 0 {
        Seq::empty()
    } else {
        toml_patch(s.drop_last()) + toml_char(s.last())
    }
}

/// `value` as a TOML basic string.
pub open spec fn toml_string_spec(value: Seq<char>) -> Seq<char> {
    toml_patch(json_string(value))
}

fn push_upper_hex_digits(out: &mut String, n: u32, count: u32)
    requires
        count <= 8,
    ensures
        final(out)@ == old(out)@ + upper_hex_digits(n as nat, count as nat),
    decreases count,
{
    if count > 0 {
        push_upper_hex_digits(out, n / 16, count - 1);
        let d = (n % 16) as u8;
        let c = if d < 10 {
            (d + 48) as char
        } else {
            (d + 55) as char
        };
        assert(c == upper_hex_digit((n % 16) as nat));
        push_char(out, c);
        assert(upper_hex_digits(n as nat, count as nat) == upper_hex_digits(
            (n / 16) as nat,
            (count - 1) as nat,
        ).push(upper_hex_digit((n % 16) as nat)));
    }
}

/// `value` as a TOML basic string: its JSON string, with DEL and the C1 controls
/// escaped as `\uXXXX`.
pub fn toml_string(value: &str) -> (r: String)
    ensures
        r@ == toml_string_spec(value@),
{
    let encoded = chars_of(json_string_text(value).as_str());
    let mut out = String::new();
    let mut i: usize = 0;
    while i < encoded.len()
        invariant
            i <= encoded.len(),
            encoded@ == json_string(value@),
            out@ == toml_patch(encoded@.take(i as int)),
        decreases encoded.len() - i,
    {
        let c = encoded[i];
        let u = c as u32;
        assert(encoded@.take(i + 1).drop_last() =~= encoded@.take(i as int));
        if 0x7f <= u && u <= 0x9f {
            push_char(&mut out, '\\');
            push_char(&mut out, 'u');
            push_upper_hex_digits(&mut out, u, 4);
            assert(out@ =~= toml_patch(encoded@.take(i as int)) + toml_char(c));
        } else {
            push_char(&mut out, c);
            assert(out@ =~= toml_patch(encoded@.take(i as int)) + toml_char(c));
        }
        i += 1;
    }
    assert(encoded@.take(encoded@.len() as int) =~= encoded@);
    out
}

/// `key = value` with the key as a TOML string.
pub open spec fn toml_assignment_spec(key: Seq<char>, value: Seq<char>) -> Seq<char> {
    toml_string_spec(key) + seq!['='] + value
}

pub fn toml_assignment(key: &str, value: &str) -> (r: String)
    ensures
        r@ == toml_assignment_spec(key@, value@),
{
    let mut s = toml_string(key);
    push_char(&mut s, '=');
    s.append(value);
    s
}

/// The runtime paths an evaluator may read, and the session and memory trees of
/// the Codex home (under `~` and, where known, under `home`) that it may not.
pub open spec fn runtime_permissions_spec(home: Option<Seq<char>>) -> Seq<(Seq<char>, Seq<char>)> {
    let fixed = seq![
        ("/bin/**"@, "read"@),
        ("/usr/bin/**"@, "read"@),
        ("/usr/lib/**"@, "read"@),
        ("/usr/libexec/**"@, "read"@),
        ("/System/**"@, "read"@),
        ("/Library/**"@, "read"@),
        ("/opt/homebrew/**"@, "read"@),
    ];
    let tilde = denied_tree("~/.codex/sessions"@) + denied_tree("~/.codex/memories"@);
    match home {
        None => fixed + tilde,
        Some(h) => {
            let codex = crate::generator::trim_end_slashes(h) + "/.codex"@;
            fixed + tilde + denied_tree(codex + "/sessions"@) + denied_tree(codex + "/memories"@)
        },
    }
}

/// A path and everything under it, both denied.
pub open spec fn denied_tree(path: Seq<char>) -> Seq<(Seq<char>, Seq<char>)> {
    seq![(path, "none"@), (path + "/**"@, "none"@)]
}

pub open spec fn pair_views(v: Seq<(String, String)>) -> Seq<(Seq<char>, Seq<char>)> {
    v.map_values(|p: (String, String)| (p.0@, p.1@))
}

/// Denies `path` and everything under it.
pub fn deny_runtime_tree(permissions: &mut Vec<(String, String)>, path: &str)
    ensures
        pair_views(final(permissions)@) == pair_views(old(permissions)@) + denied_tree(path@),
{
    permissions.push((String::from_str(path), String::from_str("none")));
    let mut tree = String::from_str(path);
    tree.append("/**");
    permissions.push((tree, String::from_str("none")));
    assert(pair_views(permissions@) =~= pair_views(old(permissions)@) + denied_tree(path@));
}

fn push_read(permissions: &mut Vec<(String, String)>, path: &str)
    ensures
        pair_views(final(permissions)@) == pair_views(old(permissions)@).push((path@, "read"@)),
{
    permissions.push((String::from_str(path), String::from_str("read")));
    assert(pair_views(permissions@) =~= pair_views(old(permissions)@).push((path@, "read"@)));
}

fn trim_end_slashes_text(s: &str) -> (r: String)
    ensures
        r@ == crate::generator::trim_end_slashes(s@),
{
    let v = chars_of(s);
    let mut end = v.len();
    assert(v@.subrange(0, end as int) =~= v@);
    while end > 0 && v[end - 1] == '/'
        invariant
            end <= v@.len(),
            crate::generator::trim_end_slashes(s@) == crate::generator::trim_end_slashes(
                v@.subrange(0, end as int),
            ),
        decreases end,
    {
        assert(v@.subrange(0, end - 1) =~= v@.subrange(0, end as int).drop_last());
        end -= 1;
    }
    assert(v@.subrange(0, end as int).len() == 0 || v@.subrange(0, end as int).last() != '/');
    crate::text::string_from_chars(&v, 0, end)
}

/// The runtime permissions of an evaluator; `home` is the user's home directory
/// where it is known.
pub fn evaluator_runtime_permissions(home: Option<&str>) -> (r: Vec<(String, String)>)
    ensures
        pair_views(r@) == runtime_permissions_spec(
            match home {
                Some(h) => Some(h@),
                None => None,
            },
        ),
{
    let mut p: Vec<(String, String)> = Vec::new();
    push_read(&mut p, "/bin/**");
    push_read(&mut p, "/usr/bin/**");
    push_read(&mut p, "/usr/lib/**");
    push_read(&mut p, "/usr/libexec/**");
    push_read(&mut p, "/System/**");
    push_read(&mut p, "/Library/**");
    push_read(&mut p, "/opt/homebrew/**");
    deny_runtime_tree(&mut p, "~/.codex/sessions");
    deny_runtime_tree(&mut p, "~/.codex/memories");
    if let Some(h) = home {
        let mut codex = trim_end_slashes_text(h);
        codex.append("/.codex");
        let mut sessions = codex.clone();
        sessions.append("/sessions");
        let mut memories = codex.clone();
        memories.append("/memories");
        deny_runtime_tree(&mut p, sessions.as_str());
        deny_runtime_tree(&mut p, memories.as_str());
    }
    p
}

/// The parts of `v` separated by `sep`.
pub open spec fn join_sep(v: Seq<Seq<char>>, sep: Seq<char>) -> Seq<char>
    decreases v.len(),
{
    if v.len() == 0 {
        Seq::empty()
    } else if v.len() == 1 {
        v[0]
    } else {
        join_sep(v.drop_last(), sep) + sep + v.last()
    }
}

fn join_with(v: &Vec<String>, sep: &str) -> (r: String)
    ensures
        r@ == join_sep(string_views(v@), sep@),
{
    let ghost sv = string_views(v@);
    let mut out = String::new();
    let mut i: usize = 0;
    while i < v.len()
        invariant
            i <= v.len(),
            sv == string_views(v@),
            out@ == join_sep(sv.take(i as int), sep@),
        decreases v.len() - i,
    {
        assert(sv.take(i + 1).drop_last() =~= sv.take(i as int));
        assert(sv[i as int] == v@[i as int]@);
        if i > 0 {
            out.append(sep);
        }
        out.append(v[i].as_str());
        proof {
            if i == 0 {
                assert(out@ =~= sv.take(1)[0]);
            }
        }
        i += 1;
    }
    assert(sv.take(v.len() as int) =~= sv);
    out
}

/// One `path = "permission"` entry of a permission table.
pub open spec fn permission_entries(pairs: Seq<(Seq<char>, Seq<char>)>) -> Seq<Seq<char>>
    decreases pairs.len(),
{
    if pairs.len() == 0 {
        Seq::empty()
    } else {
        permission_entries(pairs.drop_last()).push(
            toml_assignment_spec(pairs.last().0, toml_string_spec(pairs.last().1)),
        )
    }
}

fn permission_entry_list(pairs: &Vec<(String, String)>) -> (r: Vec<String>)
    ensures
        string_views(r@) == permission_entries(pair_views(pairs@)),
{
    let ghost pv = pair_views(pairs@);
    let mut out: Vec<String> = Vec::new();
    let mut i: usize = 0;
    while i < pairs.len()
        invariant
            i <= pairs.len(),
            pv == pair_views(pairs@),
            string_views(out@) == permission_entries(pv.take(i as int)),
        decreases pairs.len() - i,
    {
        let value = toml_string(pairs[i].1.as_str());
        let entry = toml_assignment(pairs[i].0.as_str(), value.as_str());
        let ghost before = string_views(out@);
        out.push(entry);
        assert(pv.take(i + 1).drop_last() =~= pv.take(i as int));
        assert(string_views(out@) =~= before.push(entry@));
        i += 1;
    }
    assert(pv.take(pairs.len() as int) =~= pv);
    out
}

/// The filesystem permission table that the app server starts with: the root is
/// readable, the project roots carry `roots`, the runtime paths carry `runtime`.
pub open spec fn filesystem_arg_spec(roots: Seq<(Seq<char>, Seq<char>)>, runtime: Seq<(Seq<char>, Seq<char>)>) -> Seq<char> {
    let entries = seq![
        toml_assignment_spec(":root"@, toml_string_spec("read"@)),
        toml_string_spec(":project_roots"@) + "={"@ + join_sep(permission_entries(roots), ","@) + "}"@,
    ] + permission_entries(runtime) + seq![toml_string_spec("glob_scan_max_depth"@) + "=32"@];
    "permissions.canon_check.filesystem={"@ + join_sep(entries, ","@) + "}"@
}

/// The startup project-root permissions for these deny patterns: the project root
/// and each pattern denied, in path order.
pub open spec fn startup_roots(m: Seq<(String, String)>, deny_patterns: Seq<String>) -> bool {
    &&& crate::permissions::sorted_map(m)
    &&& forall|k: Seq<char>| #[trigger] crate::permissions::perm_get(m, k) == if string_views(deny_patterns).contains(k) || k == "."@ {
        Some("none"@)
    } else {
        None
    }
}

/// The filesystem override of the app server; `home` is the user's home directory
/// where it is known.
pub fn app_server_startup_filesystem_arg(deny_patterns: &Vec<String>, home: Option<&str>) -> (r: String)
    ensures
        exists|m: Seq<(String, String)>|
            startup_roots(m, deny_patterns@) && r@ == filesystem_arg_spec(
                pair_views(m),
                runtime_permissions_spec(
                    match home {
                        Some(h) => Some(h@),
                        None => None,
                    },
                ),
            ),
{
    let roots = evaluator_startup_root_permissions(deny_patterns);
    let runtime = evaluator_runtime_permissions(home);
    let root_entries = permission_entry_list(&roots);
    let mut entries: Vec<String> = Vec::new();
    let read = toml_string("read");
    entries.push(toml_assignment(":root", read.as_str()));
    let mut project = toml_string(":project_roots");
    project.append("={");
    let joined = join_with(&root_entries, ",");
    project.append(joined.as_str());
    project.append("}");
    entries.push(project);
    let runtime_entries = permission_entry_list(&runtime);
    let ghost head = string_views(entries@);
    let mut i: usize = 0;
    while i < runtime_entries.len()
        invariant
            i <= runtime_entries.len(),
            string_views(entries@) == head + string_views(runtime_entries@).take(i as int),
        decreases runtime_entries.len() - i,
    {
        let ghost before = string_views(entries@);
        entries.push(runtime_entries[i].clone());
        assert(string_views(runtime_entries@).take(i + 1) =~= string_views(runtime_entries@).take(
            i as int,
        ).push(runtime_entries@[i as int]@));
        assert(string_views(entries@) =~= before.push(runtime_entries@[i as int]@));
        i += 1;
    }
    assert(string_views(runtime_entries@).take(runtime_entries.len() as int) =~= string_views(
        runtime_entries@,
    ));
    let mut depth = toml_string("glob_scan_max_depth");
    depth.append("=32");
    let ghost before_depth = string_views(entries@);
    entries.push(depth);
    assert(string_views(entries@) =~= before_depth.push(depth@));
    let mut r = String::from_str("permissions.canon_check.filesystem={");
    let all = join_with(&entries, ",");
    r.append(all.as_str());
    r.append("}");
    proof {
        let hv = match home {
            Some(h) => Some(h@),
            None => None,
        };
        assert(string_views(entries@) =~= seq![
            toml_assignment_spec(":root"@, toml_string_spec("read"@)),
            toml_string_spec(":project_roots"@) + "={"@ + join_sep(
                permission_entries(pair_views(roots@)),
                ","@,
            ) + "}"@,
        ] + permission_entries(pair_views(runtime@)) + seq![
            toml_string_spec("glob_scan_max_depth"@) + "=32"@,
        ]);
        assert(startup_roots(roots@, deny_patterns@));
        assert(r@ == filesystem_arg_spec(pair_views(roots@), runtime_permissions_spec(hv)));
    }
    r
}

/// The carry-over token target override.
pub open spec fn carryover_spec(config: ThreadReuseConfig) -> Seq<char> {
    "thread_reuse.carryover_token_target=["@ + crate::text::decimal(
        config.carryover_token_target.min as nat,
    ) + ","@ + crate::text::decimal(config.carryover_token_target.max as nat) + "]"@
}

/// The override that points the app server at a model catalog file.
pub open spec fn catalog_arg_spec(path: Seq<char>) -> Seq<char> {
    "model_catalog_json="@ + toml_string_spec(path)
}

/// `model_catalog_json=<path as a TOML string>`.
pub fn evaluator_model_catalog_config_arg(catalog_path: &str) -> (r: String)
    ensures
        r@ == catalog_arg_spec(catalog_path@),
{
    let mut s = String::from_str("model_catalog_json=");
    let p = toml_string(catalog_path);
    s.append(p.as_str());
    s
}

/// The startup overrides, in order: the permission profile, no history, the
/// reasoning effort of the agent's thinking level (where it has one), the model
/// catalog (where one was written), no network, the context isolation overrides,
/// the filesystem table and the carry-over token target.
pub open spec fn startup_config_values(thinking: Seq<char>, catalog: Option<Seq<char>>, filesystem: Seq<char>, carryover: Seq<char>) -> Seq<Seq<char>> {
    seq!["default_permissions=\"canon_check\""@, "history.persistence=\"none\""@] + match reasoning_effort(thinking) {
        Some(e) => seq!["model_reasoning_effort="@ + toml_string_spec(e)],
        None => Seq::empty(),
    } + match catalog {
        Some(p) => seq![catalog_arg_spec(p)],
        None => Seq::empty(),
    } + seq!["permissions.canon_check.network.enabled=false"@] + isolation_values() + seq![
        filesystem,
        carryover,
    ]
}

pub proof fn lemma_config_args_concat(a: Seq<Seq<char>>, b: Seq<Seq<char>>)
    ensures
        as_config_args(a + b) == as_config_args(a) + as_config_args(b),
    decreases b.len(),
{
    if b.len() == 0 {
        assert(a + b =~= a);
        assert(as_config_args(b) =~= Seq::<Seq<char>>::empty());
        assert(as_config_args(a) + as_config_args(b) =~= as_config_args(a));
    } else {
        lemma_config_args_concat(a, b.drop_last());
        assert((a + b).drop_last() =~= a + b.drop_last());
        assert((a + b).last() == b.last());
        assert(as_config_args(a) + as_config_args(b) =~= as_config_args(a) + as_config_args(
            b.drop_last(),
        ) + seq!["-c"@, b.last()]);
    }
}

/// The `-c` arguments the evaluator's app server starts with. `catalog_path` is
/// the model catalog written for the agent's models, if any; `home` is the user's
/// home directory where it is known.
pub fn app_server_startup_config_args(
    agent: &AgentConfig,
    deny_patterns: &Vec<String>,
    home: Option<&str>,
    catalog_path: Option<&str>,
    thread_reuse: &ThreadReuseConfig,
) -> (r: Vec<String>)
    ensures
        exists|m: Seq<(String, String)>|
            #[trigger] startup_roots(m, deny_patterns@) && string_views(r@) == as_config_args(
                startup_config_values(
                    agent.thinking@,
                    match catalog_path {
                        Some(p) => Some(p@),
                        None => None,
                    },
                    filesystem_arg_spec(
                        pair_views(m),
                        runtime_permissions_spec(
                            match home {
                                Some(h) => Some(h@),
                                None => None,
                            },
                        ),
                    ),
                    carryover_spec(*thread_reuse),
                ),
            ),
{
    let mut values: Vec<String> = Vec::new();
    values.push(String::from_str("default_permissions=\"canon_check\""));
    values.push(String::from_str("history.persistence=\"none\""));
    if let Some(effort) = codex_reasoning_effort(agent.thinking.as_str()) {
        let mut v = String::from_str("model_reasoning_effort=");
        let t = toml_string(effort);
        v.append(t.as_str());
        values.push(v);
    }
    if let Some(p) = catalog_path {
        values.push(evaluator_model_catalog_config_arg(p));
    }
    values.push(String::from_str("permissions.canon_check.network.enabled=false"));
    let ghost head = string_views(values@);
    let mut args: Vec<String> = Vec::new();
    let mut i: usize = 0;
    while i < values.len()
        invariant
            i <= values.len(),
            head == string_views(values@),
            string_views(args@) == as_config_args(head.take(i as int)),
        decreases values.len() - i,
    {
        push_config_arg(&mut args, values[i].as_str());
        assert(head.take(i + 1).drop_last() =~= head.take(i as int));
        assert(head[i as int] == values@[i as int]@);
        i += 1;
    }
    assert(head.take(values.len() as int) =~= head);
    push_evaluator_context_isolation_args(&mut args);
    let filesystem = app_server_startup_filesystem_arg(deny_patterns, home);
    push_config_arg(&mut args, filesystem.as_str());
    let carryover = thread_reuse_carryover_token_target_arg(thread_reuse);
    push_config_arg(&mut args, carryover.as_str());
    proof {
        let cv = match catalog_path {
            Some(p) => Some(p@),
            None => None,
        };
        let all = startup_config_values(agent.thinking@, cv, filesystem@, carryover@);
        let tail = seq![filesystem@, carryover@];
        assert(all =~= head + isolation_values() + tail);
        lemma_config_args_concat(head, isolation_values());
        lemma_config_args_concat(head + isolation_values(), tail);
        reveal_with_fuel(as_config_args, 3);
        assert(as_config_args(tail) =~= seq!["-c"@, filesystem@, "-c"@, carryover@]);
        assert(string_views(args@) =~= as_config_args(all));
    }
    args
}

} // verus!
