//! What the program is asked for on its command line and by its environment.
use vstd::prelude::*;

use crate::bytecode_cache::borrowed_model;
use crate::events::Event;
use crate::json::{
    entries_model, json_number, json_text_of, lemma_entry_at, no_entries, object, put, JsonModel,
};
use crate::policy::{check_line, decision, entry_count, policy_check_line, ENTRIES};
use crate::scripts::number_json;
use crate::text::{concat, decimal, parse_u64, read_u64, same, strip_prefix, texts_model, to_decimal};
use crate::urls::url_parsed;

verus! {

/// Whether an argument is given.
pub open spec fn is_given(args: Seq<Seq<char>>, arg: Seq<char>) -> bool {
    exists|i: int| 0 <= i < args.len() && #[trigger] args[i] == arg
}

/// Whether an argument is given.
fn check_given(args: &Vec<String>, arg: &str) -> (r: bool)
    ensures
        r == is_given(texts_model(args@), arg@),
{
    let ghost m = texts_model(args@);
    let mut i: usize = 0;
    while i < args.len()
        invariant
            i <= args.len(),
            m == texts_model(args@),
            forall|j: int| 0 <= j < i ==> #[trigger] m[j] != arg@,
        decreases args.len() - i,
    {
        if same(args[i].as_str(), arg) {
            assert(m[i as int] == arg@);
            return true;
        }
        i = i + 1;
    }
    false
}

/// The profile that the arguments from the number `i` on ask for: by an
/// argument of its own behind `--profile`, or in one with it.
pub open spec fn profile_from(args: Seq<Seq<char>>, i: int) -> Option<Seq<char>>
    decreases args.len() - i,
{
    if i < 0 || i >= args.len() {
        None
    } else if args[i] == "--profile"@ {
        if i + 1 < args.len() {
            Some(args[i + 1])
        } else {
            profile_from(args, i + 1)
        }
    } else if "--profile="@.is_prefix_of(args[i]) {
        Some(args[i].skip("--profile="@.len() as int))
    } else {
        profile_from(args, i + 1)
    }
}

/// The profile that is asked for: by the arguments, or else by the environment,
/// or else the usual one.
pub fn parse_profile_arg(args: &Vec<String>, env: Option<&str>, usual: &str) -> (r: String)
    ensures
        r@ == (match profile_from(texts_model(args@), 0) {
            Some(p) => p,
            None => match borrowed_model(env) {
                Some(p) => p,
                None => usual@,
            },
        }),
{
    let ghost m = texts_model(args@);
    let mut i: usize = 0;
    while i < args.len()
        invariant
            i <= args.len(),
            m == texts_model(args@),
            profile_from(m, 0) == profile_from(m, i as int),
        decreases args.len() - i,
    {
        assert(m[i as int] == args@[i as int]@);
        if same(args[i].as_str(), "--profile") {
            if i + 1 < args.len() {
                assert(m[i + 1] == args@[i + 1]@);
                return args[i + 1].clone();
            }
        } else {
            if let Some(rest) = strip_prefix(args[i].as_str(), "--profile=") {
                return rest;
            }
        }
        i = i + 1;
    }
    match env {
        Some(p) => p.to_owned(),
        None => usual.to_owned(),
    }
}

/// Whether URLs are to be blocked: by the arguments, or else by the
/// environment.
pub fn parse_policy_arg(args: &Vec<String>, env: Option<&str>) -> (r: bool)
    ensures
        r == (is_given(texts_model(args@), "--policy=blocklist"@) || is_given(
            texts_model(args@),
            "--policy=on"@,
        ) || borrowed_model(env) == Some("blocklist"@) || borrowed_model(env) == Some("on"@)),
{
    if check_given(args, "--policy=blocklist") || check_given(args, "--policy=on") {
        return true;
    }
    match env {
        Some(v) => same(v, "blocklist") || same(v, "on"),
        None => false,
    }
}

/// For how long code may run for one request, in milliseconds: as is asked
/// for, but at least a second and at most ten minutes; or else half a minute.
pub open spec fn dispatch_budget(asked: Option<Seq<char>>) -> u64 {
    match asked {
        Some(s) => match read_u64(s) {
            Some(v) => if v < 1_000 {
                1_000
            } else if v > 600_000 {
                600_000
            } else {
                v
            },
            None => 30_000,
        },
        None => 30_000,
    }
}

/// For how long code may run for one request, by what the environment says.
pub fn read_dispatch_budget_ms(asked: Option<&str>) -> (r: u64)
    ensures
        r == dispatch_budget(borrowed_model(asked)),
{
    match asked {
        Some(s) => match parse_u64(s) {
            Some(v) => {
                if v < 1_000 {
                    1_000
                } else if v > 600_000 {
                    600_000
                } else {
                    v
                }
            },
            None => 30_000,
        },
        None => 30_000,
    }
}

/// The time for a request is always bounded, and never none.
pub proof fn law_budget_is_bounded(asked: Option<Seq<char>>)
    ensures
        1_000 <= dispatch_budget(asked) <= 600_000,
{
}

/// What the program does.
#[derive(Debug, Clone, Copy, PartialEq, Eq, Structural)]
pub enum Command {
    /// Name the profiles.
    ListProfiles,
    /// Describe what was learned about sites.
    PrefitInfo,
    /// Say of URLs whether they are blocked.
    PolicyCheck,
    /// Serve the Model Context Protocol.
    Mcp,
    /// Serve requests.
    Rpc,
}

/// What the program does, by its arguments; the first is its own name.
pub open spec fn command_of(args: Seq<Seq<char>>) -> Command {
    if is_given(args, "--list-profiles"@) {
        Command::ListProfiles
    } else if is_given(args, "--prefit-info"@) {
        Command::PrefitInfo
    } else if args.len() > 1 && args[1] == "policy-check"@ {
        Command::PolicyCheck
    } else if is_given(args, "--mcp"@) {
        Command::Mcp
    } else {
        Command::Rpc
    }
}

/// What the program does, by its arguments.
pub fn read_command(args: &Vec<String>) -> (r: Command)
    ensures
        r == command_of(texts_model(args@)),
{
    if check_given(args, "--list-profiles") {
        return Command::ListProfiles;
    }
    if check_given(args, "--prefit-info") {
        return Command::PrefitInfo;
    }
    if args.len() > 1 && same(args[1].as_str(), "policy-check") {
        return Command::PolicyCheck;
    }
    if check_given(args, "--mcp") {
        Command::Mcp
    } else {
        Command::Rpc
    }
}

/// The lines that say of URLs whether they are blocked, one each.
pub open spec fn check_lines(urls: Seq<Seq<char>>) -> Seq<Seq<char>> {
    Seq::new(
        urls.len(),
        |i: int|
            check_line(
                decision(urls[i]),
                match url_parsed(urls[i]) {
                    Ok(u) => u.host,
                    Err(_) => None,
                },
                urls[i],
            ),
    )
}

/// What is printed for `policy-check`: nothing where no URL is given, how long
/// the list is where that is asked for, or whether the URLs are blocked.
pub open spec fn policy_check(urls: Seq<Seq<char>>) -> Option<Seq<Seq<char>>> {
    if urls.len() == 0 {
        None
    } else if is_given(urls, "--info"@) {
        Some(seq!["entries: "@ + decimal(ENTRIES@.len())])
    } else {
        Some(check_lines(urls))
    }
}

/// What is printed for `policy-check`.
pub fn policy_check_cmd(urls: &Vec<String>) -> (r: Option<Vec<String>>)
    ensures
        match r {
            Some(lines) => policy_check(texts_model(urls@)) == Some(texts_model(lines@)),
            None => policy_check(texts_model(urls@)) is None,
        },
{
    if urls.len() == 0 {
        return None;
    }
    let mut out: Vec<String> = Vec::new();
    if check_given(urls, "--info") {
        out.push(concat("entries: ", to_decimal(entry_count() as u64).as_str()));
        assert(texts_model(out@) =~= seq!["entries: "@ + decimal(ENTRIES@.len())]);
        return Some(out);
    }
    let ghost all = check_lines(texts_model(urls@));
    let mut i: usize = 0;
    while i < urls.len()
        invariant
            i <= urls.len(),
            all == check_lines(texts_model(urls@)),
            texts_model(out@) =~= all.take(i as int),
        decreases urls.len() - i,
    {
        let ghost before = texts_model(out@);
        let line = policy_check_line(urls[i].as_str());
        let ghost l = line@;
        out.push(line);
        assert(texts_model(out@) =~= before.push(l));
        assert(all.take(i + 1) =~= all.take(i as int).push(all[i as int]));
        i = i + 1;
    }
    assert(all.take(i as int) =~= all);
    Some(out)
}

/// Tells that the program is ready.
pub fn ready(version: &str, dispatch_budget_ms: u64, profile: &str) -> (r: Event)
    ensures
        r@ == (
            "ready"@,
            JsonModel::Object(
                seq![
                    ("version"@, JsonModel::Text(version@)),
                    ("dispatch_budget_ms"@, number_json(dispatch_budget_ms as nat)),
                    ("profile"@, JsonModel::Text(profile@)),
                ],
            ),
        ),
{
    let mut e = no_entries();
    put(&mut e, "version", json_text_of(version));
    put(&mut e, "dispatch_budget_ms", json_number(dispatch_budget_ms));
    put(&mut e, "profile", json_text_of(profile));
    let ghost want = seq![
        ("version"@, JsonModel::Text(version@)),
        ("dispatch_budget_ms"@, number_json(dispatch_budget_ms as nat)),
        ("profile"@, JsonModel::Text(profile@)),
    ];
    assert(entries_model(e@) =~= want);
    Event { name: "ready", data: object(e) }
}

/// What the program does is what the first of these asks for that is given: to
/// name the profiles, to describe what was learned, to check URLs, to serve the
/// protocol; and otherwise it serves requests.
pub proof fn law_what_the_program_does(args: &Vec<String>, r: Command)
    requires
        call_ensures(read_command, (args,), r),
    ensures
        ({
            let profiles = exists|i: int|
                0 <= i < args@.len() && (#[trigger] args@[i])@ == "--list-profiles"@;
            let info = exists|i: int|
                0 <= i < args@.len() && (#[trigger] args@[i])@ == "--prefit-info"@;
            let check = args@.len() > 1 && args@[1]@ == "policy-check"@;
            let mcp = exists|i: int| 0 <= i < args@.len() && (#[trigger] args@[i])@ == "--mcp"@;
            &&& r is ListProfiles <==> profiles
            &&& r is PrefitInfo <==> info && !profiles
            &&& r is PolicyCheck <==> check && !info && !profiles
            &&& r is Mcp <==> mcp && !check && !info && !profiles
            &&& r is Rpc <==> !mcp && !check && !info && !profiles
        }),
{
    lemma_given(args@, "--list-profiles"@);
    lemma_given(args@, "--prefit-info"@);
    lemma_given(args@, "--mcp"@);
}

proof fn lemma_given(args: Seq<String>, arg: Seq<char>)
    ensures
        is_given(texts_model(args), arg) <==> exists|i: int|
            0 <= i < args.len() && (#[trigger] args[i])@ == arg,
{
    let m = texts_model(args);
    if is_given(m, arg) {
        let i = choose|i: int| 0 <= i < m.len() && #[trigger] m[i] == arg;
        assert(args[i]@ == arg);
    }
    if exists|i: int| 0 <= i < args.len() && (#[trigger] args[i])@ == arg {
        let i = choose|i: int| 0 <= i < args.len() && (#[trigger] args[i])@ == arg;
        assert(m[i] == arg);
    }
}

/// Whether an argument asks for a profile.
pub open spec fn asks_for_profile(arg: Seq<char>) -> bool {
    arg == "--profile"@ || "--profile="@.is_prefix_of(arg)
}

/// The profile is the one that the first argument for it names: in itself, or by
/// the next; where none does, it is that of the environment or the usual one.
pub proof fn law_which_profile(args: &Vec<String>, env: Option<&str>, usual: &str, r: String, i: int)
    requires
        call_ensures(parse_profile_arg, (args, env, usual), r),
    ensures
        ({
            let first = 0 <= i < args@.len() && asks_for_profile(args@[i]@) && forall|k: int|
                0 <= k < i ==> !asks_for_profile((#[trigger] args@[k])@);
            let none = forall|k: int|
                0 <= k < args@.len() ==> !asks_for_profile((#[trigger] args@[k])@);
            let unsaid = none || (first && args@[i]@ == "--profile"@ && i + 1 == args@.len());
            &&& first && args@[i]@ == "--profile"@ && i + 1 < args@.len() ==> r@ == args@[i + 1]@
            &&& first && args@[i]@ != "--profile"@ ==> args@[i]@ == "--profile="@ + r@
            &&& unsaid && env is Some ==> r@ == env->0@
            &&& unsaid && env is None ==> r@ == usual@
        }),
{
    let m = texts_model(args@);
    if 0 <= i < args@.len() && forall|k: int|
        0 <= k < i ==> !asks_for_profile((#[trigger] args@[k])@) {
        assert forall|k: int| 0 <= k < i implies !asks_for_profile(#[trigger] m[k]) by {
            assert(!asks_for_profile(args@[k]@));
        }
        lemma_profile_from(m, 0, i);
        assert(m[i] == args@[i]@);
        if i + 1 < args@.len() {
            assert(m[i + 1] == args@[i + 1]@);
        } else {
            assert(profile_from(m, i + 1) is None);
        }
        if "--profile="@.is_prefix_of(m[i]) {
            let n = "--profile="@.len() as int;
            assert(m[i] =~= m[i].subrange(0, n) + m[i].skip(n));
        }
    }
    if forall|k: int| 0 <= k < args@.len() ==> !asks_for_profile((#[trigger] args@[k])@) {
        assert forall|k: int| 0 <= k < m.len() implies !asks_for_profile(#[trigger] m[k]) by {
            assert(!asks_for_profile(args@[k]@));
        }
        lemma_profile_from(m, 0, m.len() as int);
    }
}

proof fn lemma_profile_from(m: Seq<Seq<char>>, a: int, b: int)
    requires
        0 <= a <= b <= m.len(),
        forall|k: int| a <= k < b ==> !asks_for_profile(#[trigger] m[k]),
    ensures
        profile_from(m, a) == profile_from(m, b),
    decreases b - a,
{
    if a < b {
        assert(!asks_for_profile(m[a]));
        lemma_profile_from(m, a + 1, b);
    }
}

/// URLs are blocked exactly if an argument or the environment says so.
pub proof fn law_when_urls_are_blocked(args: &Vec<String>, env: Option<&str>, r: bool)
    requires
        call_ensures(parse_policy_arg, (args, env), r),
    ensures
        r <==> {
            ||| exists|i: int|
                0 <= i < args@.len() && ((#[trigger] args@[i])@ == "--policy=blocklist"@
                    || args@[i]@ == "--policy=on"@)
            ||| env is Some && (env->0@ == "blocklist"@ || env->0@ == "on"@)
        },
{
    lemma_given(args@, "--policy=blocklist"@);
    lemma_given(args@, "--policy=on"@);
}

/// The time for a request is the one that is asked for where that lies between a
/// second and ten minutes, and otherwise the nearer of these; where no number is
/// asked for, it is half a minute.
pub proof fn law_time_for_a_request(asked: Option<&str>, r: u64)
    requires
        call_ensures(read_dispatch_budget_ms, (asked,), r),
    ensures
        asked is None ==> r == 30_000,
        asked is Some && read_u64(asked->0@) is None ==> r == 30_000,
        asked is Some && read_u64(asked->0@) is Some ==> {
            let v = read_u64(asked->0@)->0;
            &&& v <= 1_000 ==> r == 1_000
            &&& 1_000 <= v <= 600_000 ==> r == v
            &&& v >= 600_000 ==> r == 600_000
        },
{
}

/// For a check of URLs there is one line on each, in their order, or one on the
/// length of the list where that is asked for; without a URL there is nothing.
pub proof fn law_what_a_check_prints(
    urls: &Vec<String>,
    r: Option<Vec<String>>,
    i: int,
    url: &str,
    line: String,
)
    requires
        call_ensures(policy_check_cmd, (urls,), r),
        call_ensures(policy_check_line, (url,), line),
    ensures
        r is None <==> urls@.len() == 0,
        r matches Some(lines) ==> {
            let info = exists|k: int| 0 <= k < urls@.len() && (#[trigger] urls@[k])@ == "--info"@;
            &&& info ==> lines@.len() == 1 && lines@[0]@ == "entries: "@ + decimal(ENTRIES@.len())
            &&& !info ==> lines@.len() == urls@.len()
            &&& !info && 0 <= i < urls@.len() && urls@[i]@ == url@ ==> lines@[i]@ == line@
        },
{
    lemma_given(urls@, "--info"@);
    if let Some(lines) = r {
        let m = texts_model(lines@);
        assert(m.len() == lines@.len());
        assert(texts_model(urls@).len() == urls@.len());
        if m.len() > 0 {
            assert(m[0] == lines@[0]@);
        }
        if 0 <= i < lines@.len() {
            assert(m[i] == lines@[i]@);
        }
        if 0 <= i < urls@.len() {
            assert(texts_model(urls@)[i] == urls@[i]@);
        }
    }
}

/// That the program is ready is told with its version, the time for a request
/// and the profile.
pub proof fn law_what_is_told_at_the_start(version: &str, budget: u64, profile: &str, r: Event)
    requires
        call_ensures(ready, (version, budget, profile), r),
    ensures
        r@.0 == "ready"@,
        r@.1.text_at("version"@) == Some(version@),
        r@.1.u64_at("dispatch_budget_ms"@) == Some(budget),
        r@.1.text_at("profile"@) == Some(profile@),
{
    reveal_strlit("version");
    reveal_strlit("dispatch_budget_ms");
    reveal_strlit("profile");
    assert("version"@.len() == 7);
    assert("dispatch_budget_ms"@.len() == 18);
    assert("profile"@.len() == 7);
    assert("version"@[0] != "profile"@[0]);
    let e = r@.1->Object_0;
    lemma_entry_at(e, "version"@, 0);
    lemma_entry_at(e, "dispatch_budget_ms"@, 1);
    lemma_entry_at(e, "profile"@, 2);
}

} // verus!
