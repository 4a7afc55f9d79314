use swcc::driver::{
    arch_of, archive_args, builtins_stem, c_type, choose_toolchain, cli_action, content_hash, def_file_name, def_text,
    default_target, elf_emulation, executable_suffix, hash_record, header_text, host_exe_name, is_compiler_builtins,
    linux_link_args, macos_link_args, mingw_arch_dir, musl_library_triple, musl_link_files, musl_target,
    needs_host_target, output_name, parse_config, parse_options, pe_emulation, prebuilt_runtime_files,
    runtime_asm_file, runtime_tasks, sdk_paths, should_compile, startup_file, stub_compile_args, stub_object_name,
    stub_text, target_family, target_tag, windows_link_args, BuildKind, CliAction, SwConfig,
};
use swcc::mir::{MirFunction, MirModule, MirParam};
use swcc::types::Type;
use swcc::driver::diagnostic_line;

fn strings(items: &[&str]) -> Vec<String> {
    items.iter().map(|s| s.to_string()).collect()
}

fn function(name: &str, user: &str, exported: bool, params: Vec<(&str, Type)>, ret: Type) -> MirFunction {
    MirFunction {
        name: name.to_string(),
        user_name: user.to_string(),
        exported,
        params: params.into_iter().map(|(n, ty)| MirParam { name: n.to_string(), ty }).collect(),
        ret,
        locals: Vec::new(),
        body: Vec::new(),
        extern_c: false,
    }
}

fn modules() -> Vec<MirModule> {
    vec![MirModule {
        module_id: 0,
        functions: vec![
            function("sw_fn_math_add_ii", "add", true, vec![("a", Type::Int), ("b", Type::Int)], Type::Int),
            function("sw_fn_math_hidden", "hidden", false, vec![], Type::Void),
            function("sw_user_main", "main", true, vec![], Type::Int),
            function("sw_fn_math_greet_s", "greet", true, vec![("who", Type::Nullable(Box::new(Type::Str)))], Type::Void),
        ],
        globals: Vec::new(),
        strings: Vec::new(),
    }]
}

#[test]
fn target_rules() {
    assert_eq!(target_family("x86_64-w64-windows-gnu"), "windows");
    assert_eq!(target_family("aarch64-unknown-linux-musl"), "linux");
    assert_eq!(target_family("aarch64-apple-darwin"), "macos");
    assert_eq!(target_family("wasm32-unknown-unknown"), "unknown");
    assert_eq!(arch_of("aarch64-apple-darwin"), "aarch64");
    assert_eq!(arch_of("riscv64gc-unknown-linux-gnu"), "x86_64");
    assert_eq!(pe_emulation("aarch64"), "aarch64pe");
    assert_eq!(pe_emulation("x86_64"), "i386pep");
    assert_eq!(elf_emulation("x86_64"), "elf_x86_64");
    assert_eq!(mingw_arch_dir("aarch64"), "aarch64-w64-mingw32");
    assert_eq!(builtins_stem("x86_64"), "libclang_rt.builtins-x86_64.a");
    assert_eq!(host_exe_name("clang", "windows"), "clang.exe");
    assert_eq!(host_exe_name("clang", "linux"), "clang");
    assert_eq!(runtime_asm_file("x86_64"), "runtime_x64.S");
    assert_eq!(startup_file("aarch64"), "startup_aarch64.s");
    assert_eq!(executable_suffix("x86_64-w64-windows-gnu"), ".exe");
    assert_eq!(executable_suffix("x86_64-unknown-linux-musl"), "");
    assert_eq!(musl_target("aarch64-unknown-linux-gnu"), "aarch64-unknown-linux-musl");
    assert_eq!(musl_library_triple("x86_64-unknown-linux-musl"), "x86_64-unknown-linux-musl");
    assert_eq!(musl_library_triple("x86_64-unknown-linux-gnu"), "x86_64-unknown-linux-musl");
    assert_eq!(default_target("macos", "aarch64"), "aarch64-apple-darwin");
    assert_eq!(default_target("windows", "x86_64"), "x86_64-w64-windows-gnu");
    assert_eq!(default_target("freebsd", "x86_64"), "x86_64-unknown-linux-musl");
    assert_eq!(target_tag("x86_64-w64-windows-gnu"), "x86_64_w64_windows_gnu");
}

#[test]
fn c_types_of_exports() {
    assert_eq!(c_type(&Type::Nullable(Box::new(Type::Str))), "sw_string*");
    assert_eq!(c_type(&Type::Array(Box::new(Type::Int))), "sw_array*");
    assert_eq!(c_type(&Type::Class(0)), "void*");
    assert_eq!(c_type(&Type::F32), "double");
    assert_eq!(c_type(&Type::Bool), "long long");
    assert_eq!(c_type(&Type::Void), "void");
}

#[test]
fn reads_options_after_the_file() {
    let args = strings(&["swc", "run", "main.sw", "--target", "x", "-o", "out", "--verbose", "a", "b", "--emit-object", "o.o", "--target"]);
    let o = parse_options(&args, "linux", "x86_64");
    assert_eq!(o.output, Some("out".to_string()));
    assert_eq!(o.emit_object, Some("o.o".to_string()));
    assert_eq!(o.run_args, strings(&["a", "b"]));
    assert_eq!(o.target, "x86_64-unknown-linux-musl");
    let plain = parse_options(&strings(&["swc", "build", "main.sw", "--target", "aarch64-apple-darwin"]), "linux", "x86_64");
    assert_eq!(plain.target, "aarch64-apple-darwin");
    assert_eq!(plain.output, None);
}

#[test]
fn reads_the_project_file() {
    let c = parse_config("# settings\n[build]\nkind = \"dll\"\n[lib]\nname='swmath'\n[project]\nname = other\n");
    assert_eq!(c.kind, BuildKind::Dll);
    assert_eq!(c.lib_name, "swmath");
    let d = parse_config("[ build ]\r\nkind=lib\r\n[project]\nname = \"app\"\n");
    assert_eq!(d.kind, BuildKind::Lib);
    assert_eq!(d.lib_name, "app");
    let e = parse_config("kind = dll\n[build]\nkind = exe\n");
    assert_eq!(e.kind, BuildKind::Console);
    assert_eq!(e.lib_name, "");
}

#[test]
fn names_outputs() {
    let dll = SwConfig { kind: BuildKind::Dll, lib_name: "swmath".to_string() };
    assert_eq!(output_name(&None, &dll, "main", "x86_64-unknown-linux-musl"), "swmath.so");
    assert_eq!(output_name(&None, &dll, "main", "aarch64-apple-darwin"), "swmath.dylib");
    assert_eq!(output_name(&None, &dll, "main", "x86_64-w64-windows-gnu"), "swmath.dll");
    let lib = SwConfig { kind: BuildKind::Lib, lib_name: String::new() };
    assert_eq!(output_name(&None, &lib, "main", "x86_64-unknown-linux-musl"), "main.a");
    assert_eq!(output_name(&None, &lib, "main", "x86_64-w64-windows-gnu"), "main.lib");
    let console = SwConfig { kind: BuildKind::Console, lib_name: String::new() };
    assert_eq!(output_name(&None, &console, "hello", "x86_64-w64-windows-gnu"), "hello.exe");
    assert_eq!(output_name(&Some("bin/app".to_string()), &dll, "main", "x86_64-w64-windows-gnu"), "bin/app");
}

#[test]
fn writes_export_files() {
    let m = modules();
    assert_eq!(def_text(&m), "EXPORTS\nadd = sw_fn_math_add_ii\ngreet = sw_fn_math_greet_s\n");
    let header = header_text(&m, Some("sw-math"));
    assert!(header.starts_with("#ifndef SW_sw_math_H\n#define SW_sw_math_H\n\n"));
    assert!(header.contains("extern long long add(long long a, long long b);\n"));
    assert!(header.contains("extern void greet(sw_string* who);\n"));
    assert!(!header.contains("hidden"));
    assert!(header.ends_with("\n#endif // SW_sw_math_H\n"));
    assert!(header_text(&Vec::new(), None).contains("SW_sw_H"));
    let stub = stub_text(&m).unwrap();
    assert!(stub.contains("long long sw_fn_math_add_ii(long long p0, long long p1);\nlong long add(long long p0, long long p1) {\n    return sw_fn_math_add_ii(p0, p1);\n}\n"));
    assert!(stub_text(&Vec::new()).is_none());
}

#[test]
fn runtime_compilations() {
    let w = runtime_tasks("x86_64-w64-windows-gnu", "windows", false);
    assert_eq!(w.len(), 3);
    assert_eq!(w[0].source, "runtime.c");
    assert_eq!(w[0].object, "runtime_x86_64_w64_windows_gnu.obj");
    assert_eq!(w[0].args, strings(&["-target", "x86_64-w64-windows-gnu", "-O2", "-ffunction-sections", "-fdata-sections", "-c"]));
    assert_eq!(w[1].source, "runtime_x64.S");
    assert_eq!(w[2].source, "startup.s");
    assert_eq!(w[2].object, "startup_x86_64_w64_windows_gnu.obj");
    let l = runtime_tasks("aarch64-unknown-linux-musl", "linux", true);
    assert_eq!(l.len(), 2);
    assert_eq!(l[0].object, "runtime_dll_aarch64_unknown_linux_musl.o");
    assert!(l[0].args.contains(&"-DSW_NO_MAIN".to_string()));
    assert_eq!(l[1].args, strings(&["-target", "aarch64-unknown-linux-musl", "-c"]));
    assert_eq!(prebuilt_runtime_files("aarch64-w64-windows-gnu").unwrap(), strings(&["runtime_aarch64.obj", "runtime_asm_aarch64.obj", "startup_aarch64.obj"]));
    assert_eq!(prebuilt_runtime_files("x86_64-unknown-linux-musl").unwrap(), strings(&["runtime_x86_64.o", "runtime_asm_x86_64.o"]));
    assert!(prebuilt_runtime_files("aarch64-apple-darwin").is_none());
}

#[test]
fn cache_decisions_and_hashes() {
    assert!(should_compile(false, false, "abc", Some("abc")));
    assert!(!should_compile(true, true, "abc", Some("abc")));
    assert!(should_compile(true, false, "abc", Some("abd")));
    assert!(!should_compile(true, false, "abc", None));
    assert!(should_compile(true, true, "abc", None));
    assert!(!should_compile(true, false, "", None));
    assert!(should_compile(true, true, "", None));
    assert_eq!(hash_record("00ff", &strings(&["-target", "t", "-c"])), "00ff\n-target t -c");
    assert_eq!(content_hash(&Vec::new()), "cbf29ce484222325");
    assert_eq!(content_hash(&b"a".to_vec()), "af63dc4c8601ec8c");
    assert_eq!(content_hash(&b"foobar".to_vec()), "85944171f73967e8");
}

#[test]
fn linker_arguments() {
    let objs = strings(&["mod_0.obj"]);
    let rt = strings(&["runtime.obj"]);
    let w = windows_link_args("x86_64-w64-windows-gnu", &objs, &rt, "L", "rt.a", "app.exe", None);
    assert_eq!(w, strings(&["-m", "i386pep", "--gc-sections", "mod_0.obj", "runtime.obj", "-L", "L", "-lucrt", "-lucrtbase", "-lkernel32", "-lshell32", "-lole32", "-lws2_32", "rt.a", "-o", "app.exe"]));
    let d = windows_link_args("aarch64-w64-windows-gnu", &objs, &rt, "L", "rt.a", "m.dll", Some(("m.lib", "m.def")));
    assert_eq!(&d[..6], &strings(&["-m", "aarch64pe", "--dll", "--out-implib", "m.lib", "m.def"])[..]);
    let musl = musl_link_files();
    assert_eq!(musl, strings(&["crt1.o", "crti.o", "crtn.o", "libc.a"]));
    let l = linux_link_args("aarch64-unknown-linux-musl", &objs, &rt, &strings(&["d/crt1.o"]), Some("cb.rlib"), "app", false);
    assert_eq!(l, strings(&["-m", "aarch64elf", "-static", "--gc-sections", "mod_0.obj", "runtime.obj", "d/crt1.o", "cb.rlib", "-o", "app"]));
    let s = linux_link_args("x86_64-unknown-linux-musl", &objs, &rt, &Vec::new(), None, "lib.so", true);
    assert_eq!(s, strings(&["-m", "elf_x86_64", "-shared", "mod_0.obj", "runtime.obj", "-o", "lib.so"]));
    let m = macos_link_args("aarch64-apple-darwin", &objs, &rt, "app", false);
    assert_eq!(m, strings(&["-target", "aarch64-apple-darwin", "-Wl,-dead_strip", "mod_0.obj", "runtime.obj", "-o", "app"]));
    assert_eq!(archive_args("m.a", &objs, Some("stub.o")), strings(&["rcs", "m.a", "mod_0.obj", "stub.o"]));
    assert_eq!(stub_object_name("x86_64-w64-windows-gnu"), "lib_stub_x86_64_w64_windows_gnu.obj");
    assert_eq!(stub_compile_args("t", "s.c", "s.o"), strings(&["-target", "t", "-O2", "-ffunction-sections", "-fdata-sections", "-c", "s.c", "-o", "s.o"]));
}

#[test]
fn tool_chain_files() {
    assert_eq!(def_file_name(Some("swmath.dll")), "swmath.def");
    assert_eq!(def_file_name(Some("a.dll.dll")), "a.def.def");
    assert_eq!(def_file_name(None), "sw.def");
    assert_eq!(choose_toolchain(&strings(&["nightly-x", "stable-y", "stable-z"])), Some("stable-y".to_string()));
    assert_eq!(choose_toolchain(&strings(&["beta", "nightly"])), Some("beta".to_string()));
    assert_eq!(choose_toolchain(&Vec::new()), None);
    assert!(is_compiler_builtins("libcompiler_builtins-1a2b.rlib"));
    assert!(!is_compiler_builtins("libcore-1a2b.rlib"));
    let p = sdk_paths("aarch64-w64-windows-gnu", "windows", true);
    assert_eq!(p.lld, strings(&["bin", "ld.lld.exe"]));
    assert_eq!(p.lib, strings(&["aarch64-w64-mingw32", "lib"]));
    assert_eq!(p.builtins, strings(&["lib", "clang", "22", "lib", "windows", "libclang_rt.builtins-aarch64.a"]));
    let q = sdk_paths("x86_64-unknown-linux-musl", "linux", false);
    assert_eq!(q.lib, strings(&["lib"]));
    assert_eq!(q.clang, strings(&["bin", "clang"]));
}

#[test]
fn command_lines() {
    assert!(matches!(cli_action(&strings(&["swc", "-V"])), CliAction::Version));
    assert!(matches!(cli_action(&strings(&["swc", "--help"])), CliAction::Help));
    assert!(matches!(cli_action(&strings(&["swc", "help", "x"])), CliAction::Help));
    match cli_action(&strings(&["swc"])) {
        CliAction::MissingPath(c) => assert_eq!(c, "check"),
        _ => panic!("expected a missing path"),
    }
    match cli_action(&strings(&["swc", "deploy", "a.sw"])) {
        CliAction::UnknownCommand(c) => assert_eq!(c, "deploy"),
        _ => panic!("expected an unknown command"),
    }
    match cli_action(&strings(&["swc", "run", "a.sw", "-o", "x"])) {
        CliAction::Run { command, path } => {
            assert_eq!(command, "run");
            assert_eq!(path, "a.sw");
        }
        _ => panic!("expected a run"),
    }
    assert!(needs_host_target("test", "aarch64-apple-darwin", "x86_64-unknown-linux-musl"));
    assert!(!needs_host_target("build", "aarch64-apple-darwin", "x86_64-unknown-linux-musl"));
}

#[test]
fn prints_diagnostics() {
    assert_eq!(diagnostic_line("a.sw", Some((3, 14)), true, "未定义的名称"), "a.sw:3:14: 错误: 未定义的名称");
    assert_eq!(diagnostic_line("b.sw", None, false, "unused"), "b.sw: 警告: unused");
}
