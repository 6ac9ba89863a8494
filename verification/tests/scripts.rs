use loadr::modules::{
    alias_modules, builtin_modules, builtin_source, known_modules_hint, ModuleLoader,
    ModuleResolver,
};

#[test]
fn resolves_native_and_alias_and_rejects_others() {
    let resolver = ModuleResolver;
    // loadr-native names resolve.
    for (name, _) in builtin_modules() {
        let resolved = resolver.resolve(name).expect("native module resolves");
        assert_eq!(resolved, name);
    }
    // k6 aliases still resolve, for migrated scripts.
    for (name, _) in alias_modules() {
        resolver.resolve(name).expect("k6 alias resolves");
    }
    // The base `loadr` module re-exports the whole stdlib in one specifier.
    let base = builtin_source("loadr").expect("loadr base module");
    for sym in ["http", "check", "sleep", "group", "Trend", "Counter"] {
        assert!(
            base.contains(&format!("export const {sym}"))
                || base.contains(&format!("export function {sym}")),
            "loadr module re-exports {sym}"
        );
    }
    // Unknown modules are rejected, and the hint names loadr's modules.
    let msg = resolver.resolve("left-pad").expect_err("unknown module rejected");
    assert!(msg.contains("loadr/http"), "hint lists loadr modules: {msg}");
}

#[test]
fn aliases_load_the_same_sources() {
    let loader = ModuleLoader;
    for (alias, native) in [
        ("k6", "loadr"),
        ("k6/http", "loadr/http"),
        ("k6/metrics", "loadr/metrics"),
        ("k6/crypto", "loadr/crypto"),
        ("k6/encoding", "loadr/encoding"),
    ] {
        assert_eq!(loader.load(alias).unwrap(), loader.load(native).unwrap());
    }
    assert_eq!(loader.load("loadr/http").unwrap(), "const http = globalThis.http;\nexport default http;\n");
    assert_eq!(
        known_modules_hint(),
        "unknown module; loadr's built-in modules are: loadr, loadr/http, loadr/metrics, loadr/crypto, loadr/encoding"
    );
    assert_eq!(loader.load("fs").unwrap_err(), known_modules_hint());
}
