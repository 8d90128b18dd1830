use sha2::Digest;
use unbrowser::bytecode_cache::{
    cache_dir, cache_key, eval_result, first_step, format_js_exception, hex_encode, is_disabled,
    join_path, key_to_path, max_total_bytes, next_step, sha256, shim_hash, suspends_watchdog,
    CacheAnswer, CacheFile, CacheStep, Evaluated, Pruner, Thrown,
};

const ARCH: &str = "x86_64";
const OS: &str = "linux";
const ENGINE: &str = "0.11.0";

#[test]
fn cache_key_is_stable() {
    let k1 = cache_key("var x = 1;", "shim_hash_a", ARCH, OS, ENGINE);
    let k2 = cache_key("var x = 1;", "shim_hash_a", ARCH, OS, ENGINE);
    assert_eq!(k1, k2);
}

#[test]
fn cache_key_changes_with_content() {
    let k1 = cache_key("var x = 1;", "shim", ARCH, OS, ENGINE);
    let k2 = cache_key("var x = 2;", "shim", ARCH, OS, ENGINE);
    assert_ne!(k1, k2);
}

#[test]
fn cache_key_changes_with_shim_hash() {
    let k1 = cache_key("var x = 1;", "shim_a", ARCH, OS, ENGINE);
    let k2 = cache_key("var x = 1;", "shim_b", ARCH, OS, ENGINE);
    assert_ne!(k1, k2);
}

#[test]
fn cache_key_changes_with_platform() {
    let k1 = cache_key("var x = 1;", "shim", ARCH, OS, ENGINE);
    assert_ne!(k1, cache_key("var x = 1;", "shim", "aarch64", OS, ENGINE));
    assert_ne!(k1, cache_key("var x = 1;", "shim", ARCH, "macos", ENGINE));
}

#[test]
fn cache_key_changes_with_engine() {
    let k1 = cache_key("var x = 1;", "shim", ARCH, OS, ENGINE);
    assert_ne!(k1, cache_key("var x = 1;", "shim", ARCH, OS, "0.12.0"));
}

#[test]
fn cache_key_is_the_hash_of_its_material() {
    let mut h = sha2::Sha256::new();
    h.update(b"unbrowser-bytecode\0");
    h.update(1u32.to_le_bytes());
    h.update(b"x86_64-linux\x000.11.0\0shim\0var x = \xc3\xa4;");
    let want: String = h.finalize().iter().map(|b| format!("{b:02x}")).collect();
    assert_eq!(cache_key("var x = ä;", "shim", ARCH, OS, ENGINE), want);
}

#[test]
fn key_path_uses_two_char_prefix() {
    let path = key_to_path("/tmp/cache", "abcdef0123");
    assert_eq!(path, "/tmp/cache/ab/abcdef0123.qbc");
}

#[test]
fn key_paths_at_the_edges() {
    assert_eq!(key_to_path("/c", "a"), "/c/a/a.qbc");
    assert_eq!(key_to_path("/c", ""), "/c/.qbc");
    assert_eq!(key_to_path("/c/", "äbc"), "/c/ä/äbc.qbc");
}

#[test]
fn hashes_are_known() {
    assert_eq!(
        sha256("abc"),
        "ba7816bf8f01cfea414140de5dae2223b00361a396177a9cb410ff61f20015ad"
    );
    assert_eq!(hex_encode(&[0, 1, 15, 16, 171, 255]), "00010f10abff");
    assert_eq!(shim_hash("a", "b", "c", "d"), sha256("a\0b\0c\0d"));
}

#[test]
fn paths_are_joined() {
    for (base, part) in [("/a", "b"), ("/a/", "b"), ("", "b"), ("/a", "/b"), ("/a", "")] {
        let want = std::path::Path::new(base).join(part);
        assert_eq!(join_path(base, part), want.to_str().unwrap());
    }
}

#[test]
fn the_environment_says_where_the_cache_lies() {
    assert_eq!(cache_dir(Some("/x"), Some("/home/u")), "/x");
    assert_eq!(cache_dir(None, Some("/home/u")), "/home/u/.unbrowser/bytecode");
    assert_eq!(cache_dir(None, None), "/tmp/unbrowser-bytecode");
}

#[test]
fn the_environment_switches_the_cache_off() {
    assert!(is_disabled(Some("1")));
    assert!(is_disabled(Some("true")));
    assert!(!is_disabled(Some("0")));
    assert!(!is_disabled(None));
}

#[test]
fn the_environment_caps_the_cache() {
    assert_eq!(max_total_bytes(None), 500 * 1024 * 1024);
    assert_eq!(max_total_bytes(Some("3")), 3 * 1024 * 1024);
    assert_eq!(max_total_bytes(Some("+3")), 3 * 1024 * 1024);
    assert_eq!(max_total_bytes(Some("x")), 500 * 1024 * 1024);
}

fn run(files: Vec<CacheFile>, cap: u64, fails: &[usize]) -> (Vec<usize>, Vec<usize>) {
    let mut p = Pruner::start(files, cap);
    let mut tried = vec![];
    let mut gone = vec![];
    while let Some(v) = p.victim() {
        tried.push(v);
        let ok = !fails.contains(&v);
        if ok {
            gone.push(v);
        }
        p.report(ok);
    }
    (tried, gone)
}

#[test]
fn prune_evicts_oldest() {
    let files: Vec<CacheFile> =
        (0..3).map(|i| CacheFile { len: 1024, mtime: 20 * i }).collect();
    let (tried, gone) = run(files, 2048, &[]);
    assert_eq!(tried, vec![0]);
    assert!(3 - gone.len() <= 2, "expected ≤2 files after prune");
}

#[test]
fn files_go_by_age_and_then_as_found() {
    let at = |len, mtime| CacheFile { len, mtime };
    let files = vec![at(10, 5), at(10, -1), at(10, 5), at(10, 3)];
    assert_eq!(run(files.clone(), 0, &[]).0, vec![1, 3, 0, 2]);
    // What cannot be removed still counts.
    assert_eq!(run(files.clone(), 20, &[1]), (vec![1, 3, 0], vec![3, 0]));
    // A cache under its cap loses nothing.
    assert_eq!(run(files, 40, &[]).0, Vec::<usize>::new());
    assert_eq!(run(vec![], 0, &[]).0, Vec::<usize>::new());
}

#[test]
fn exceptions_have_words() {
    let object = |name: Option<&str>, message: Option<&str>| Thrown::Object {
        name: name.map(|s| s.to_string()),
        message: message.map(|s| s.to_string()),
    };
    assert_eq!(
        format_js_exception(&object(Some("TypeError"), Some("x is not a function"))),
        "TypeError: x is not a function"
    );
    assert_eq!(format_js_exception(&object(Some("TypeError"), Some(""))), "TypeError");
    assert_eq!(format_js_exception(&object(None, Some("m"))), "Error: m");
    assert_eq!(format_js_exception(&object(None, None)), "Error");
    assert_eq!(format_js_exception(&Thrown::Text("boom".to_string())), "boom");
    assert_eq!(format_js_exception(&Thrown::Nothing), "<unknown JS exception>");
    assert_eq!(format_js_exception(&Thrown::Other), "<unknown JS exception>");
}

#[test]
fn evaluations_have_results() {
    assert_eq!(eval_result(&Evaluated::Fine), Ok(()));
    assert_eq!(
        eval_result(&Evaluated::Failed("oom".to_string())),
        Err("js eval: oom".to_string())
    );
    assert_eq!(
        eval_result(&Evaluated::Threw(Thrown::Text("x".to_string()))),
        Err("x".to_string())
    );
}

#[test]
fn a_script_runs_through_the_cache() {
    assert_eq!(first_step(true), CacheStep::Evaluate);
    assert_eq!(first_step(false), CacheStep::Read);

    let m = next_step(CacheStep::Read, CacheAnswer::Found(7), "n", 0);
    assert!(m.report.is_none());
    assert!(matches!(m.next, Ok(CacheStep::RunCached)));
    let m = next_step(CacheStep::RunCached, CacheAnswer::Ran, "n", 7);
    assert_eq!(m.report.as_ref().unwrap().u64_at("bytes"), Some(7));
    assert_eq!(m.report.as_ref().unwrap().bool_at("hit"), Some(true));
    assert_eq!(m.report.as_ref().unwrap().text_at("name").unwrap(), "n");
    assert!(matches!(m.next, Err(Ok(()))));

    let m = next_step(CacheStep::Read, CacheAnswer::Missing, "n", 0);
    assert!(matches!(m.next, Ok(CacheStep::Compile)));
    let m = next_step(CacheStep::Compile, CacheAnswer::Compiled(9), "n", 9);
    assert!(matches!(m.next, Ok(CacheStep::RunCompiled)));
    let thrown = Thrown::Text("interrupted".to_string());
    let m = next_step(
        CacheStep::RunCompiled,
        CacheAnswer::Broke { loader: "eval threw".to_string(), thrown },
        "n",
        9,
    );
    assert_eq!(m.report.as_ref().unwrap().u64_at("compiled_bytes"), Some(9));
    assert_eq!(m.report.as_ref().unwrap().bool_at("hit"), Some(false));
    assert_eq!(m.next.unwrap_err(), Err("interrupted".to_string()));
}

#[test]
fn failures_of_the_cache_do_not_keep_a_script_from_running() {
    let m = next_step(
        CacheStep::Compile,
        CacheAnswer::NotCompiled("compile failed: x".to_string()),
        "n",
        0,
    );
    assert_eq!(m.report.unwrap().text_at("compile_error").unwrap(), "compile failed: x");
    assert!(matches!(m.next, Ok(CacheStep::Evaluate)));
    let m = next_step(
        CacheStep::RunCached,
        CacheAnswer::NotLoaded("corrupt".to_string()),
        "n",
        3,
    );
    assert_eq!(m.report.unwrap().text_at("load_error").unwrap(), "corrupt");
    assert!(matches!(m.next, Ok(CacheStep::Evaluate)));
    let m = next_step(
        CacheStep::RunCached,
        CacheAnswer::Broke { loader: "eval threw".to_string(), thrown: Thrown::Nothing },
        "n",
        3,
    );
    assert_eq!(
        m.next.unwrap_err(),
        Err("bytecode eval threw (no exception captured)".to_string())
    );
}

#[test]
fn only_compiling_is_not_watched() {
    assert!(suspends_watchdog(CacheStep::Compile));
    for s in [
        CacheStep::Evaluate,
        CacheStep::Read,
        CacheStep::RunCached,
        CacheStep::RunCompiled,
    ] {
        assert!(!suspends_watchdog(s));
    }
}
