//! The build driver's rules: command-line options, target triples and the names
//! of the tools, libraries and runtime files that a target needs.

use vstd::prelude::*;

use crate::text::{
    chars_of, decimal, push_decimal, contains_str, contains_text, ends_with, ends_with_text, find,
    find_exec, find_from, lemma_find_from_bounds, lemma_line_end, line_end,
    push_str, same_text, skip_ws_back, skip_ws_in, slice_chars, starts_with, starts_with_text,
    string_from_chars, strs_view, trim, trim_end, trim_start,
};
use crate::lsp::{hex_digit, hex_digit_of};
use crate::mir::{MirFunction, MirModule, MirParam};
use crate::types::Type;

verus! {

// ---------------------------------------------------------------------------
// Targets.
// ---------------------------------------------------------------------------

/// The operating-system family of a target triple.
pub open spec fn family_of(target: Seq<char>) -> Seq<char> {
    if contains_str(target, "windows"@) {
        "windows"@
    } else if contains_str(target, "linux"@) {
        "linux"@
    } else if contains_str(target, "darwin"@) {
        "macos"@
    } else {
        "unknown"@
    }
}

/// The operating-system family of a target triple: `windows`, `linux`, `macos` or
/// `unknown`.
pub fn target_family(target: &str) -> (r: &'static str)
    ensures
        r@ == family_of(target@),
{
    if contains_text(target, "windows") {
        "windows"
    } else if contains_text(target, "linux") {
        "linux"
    } else if contains_text(target, "darwin") {
        "macos"
    } else {
        "unknown"
    }
}

/// The architecture of a target triple.
pub open spec fn arch_spec(target: Seq<char>) -> Seq<char> {
    if contains_str(target, "aarch64"@) {
        "aarch64"@
    } else {
        "x86_64"@
    }
}

/// The architecture of a target triple: `aarch64`, else `x86_64`.
pub fn arch_of(target: &str) -> (r: &'static str)
    ensures
        r@ == arch_spec(target@),
{
    if contains_text(target, "aarch64") {
        "aarch64"
    } else {
        "x86_64"
    }
}

/// The PE emulation that the linker uses for an architecture.
pub fn pe_emulation(arch: &str) -> (r: &'static str)
    ensures
        r@ == (if arch@ == "aarch64"@ {
            "aarch64pe"@
        } else {
            "i386pep"@
        }),
{
    if same_text(arch, "aarch64") {
        "aarch64pe"
    } else {
        "i386pep"
    }
}

/// The ELF emulation that the linker uses for an architecture.
pub fn elf_emulation(arch: &str) -> (r: &'static str)
    ensures
        r@ == (if arch@ == "aarch64"@ {
            "aarch64elf"@
        } else {
            "elf_x86_64"@
        }),
{
    if same_text(arch, "aarch64") {
        "aarch64elf"
    } else {
        "elf_x86_64"
    }
}

/// The directory of an llvm-mingw tool chain that holds an architecture's libraries.
pub fn mingw_arch_dir(arch: &str) -> (r: &'static str)
    ensures
        r@ == (if arch@ == "aarch64"@ {
            "aarch64-w64-mingw32"@
        } else {
            "x86_64-w64-mingw32"@
        }),
{
    if same_text(arch, "aarch64") {
        "aarch64-w64-mingw32"
    } else {
        "x86_64-w64-mingw32"
    }
}

/// The file name of the compiler-rt builtins library of an architecture.
pub fn builtins_stem(arch: &str) -> (r: String)
    ensures
        r@ == "libclang_rt.builtins-"@ + arch@ + ".a"@,
{
    let mut out: Vec<char> = Vec::new();
    push_str(&mut out, "libclang_rt.builtins-");
    push_str(&mut out, arch);
    push_str(&mut out, ".a");
    string_from_chars(&out)
}

/// The file name of an executable on the host (`host_os`: the host's
/// operating system, as `std::env::consts::OS` names it).
pub fn host_exe_name(basename: &str, host_os: &str) -> (r: String)
    ensures
        r@ == (if host_os@ == "windows"@ {
            basename@ + ".exe"@
        } else {
            basename@
        }),
{
    let mut out: Vec<char> = Vec::new();
    push_str(&mut out, basename);
    if same_text(host_os, "windows") {
        push_str(&mut out, ".exe");
    }
    string_from_chars(&out)
}

/// The assembly source of the runtime for an architecture.
pub fn runtime_asm_file(arch: &str) -> (r: &'static str)
    ensures
        r@ == (if arch@ == "aarch64"@ {
            "runtime_aarch64.s"@
        } else {
            "runtime_x64.S"@
        }),
{
    if same_text(arch, "aarch64") {
        "runtime_aarch64.s"
    } else {
        "runtime_x64.S"
    }
}

/// The assembly source of the Windows start-up code for an architecture.
pub fn startup_file(arch: &str) -> (r: &'static str)
    ensures
        r@ == (if arch@ == "aarch64"@ {
            "startup_aarch64.s"@
        } else {
            "startup.s"@
        }),
{
    if same_text(arch, "aarch64") {
        "startup_aarch64.s"
    } else {
        "startup.s"
    }
}

/// The suffix of an executable for a target.
pub fn executable_suffix(target: &str) -> (r: &'static str)
    ensures
        r@ == (if family_of(target@) == "windows"@ {
            ".exe"@
        } else {
            ""@
        }),
{
    if same_text(target_family(target), "windows") {
        ".exe"
    } else {
        ""
    }
}

/// The musl triple for the architecture of a target.
pub open spec fn musl_triple(target: Seq<char>) -> Seq<char> {
    if arch_spec(target) == "aarch64"@ {
        "aarch64-unknown-linux-musl"@
    } else {
        "x86_64-unknown-linux-musl"@
    }
}

/// The musl triple for the architecture of a target.
pub fn musl_target(target: &str) -> (r: &'static str)
    ensures
        r@ == musl_triple(target@),
{
    if same_text(arch_of(target), "aarch64") {
        "aarch64-unknown-linux-musl"
    } else {
        "x86_64-unknown-linux-musl"
    }
}

/// The host's own target (`os` and `arch` as `std::env::consts` name them).
pub open spec fn default_target_spec(os: Seq<char>, arch: Seq<char>) -> Seq<char> {
    if os == "windows"@ {
        "x86_64-w64-windows-gnu"@
    } else if os == "linux"@ {
        "x86_64-unknown-linux-musl"@
    } else if os == "macos"@ {
        if arch == "aarch64"@ {
            "aarch64-apple-darwin"@
        } else {
            "x86_64-apple-darwin"@
        }
    } else {
        "x86_64-unknown-linux-musl"@
    }
}

/// The target that builds for the host (`os` and `arch` as `std::env::consts` name
/// them).
pub fn default_target(os: &str, arch: &str) -> (r: String)
    ensures
        r@ == default_target_spec(os@, arch@),
{
    if same_text(os, "windows") {
        String::from_str("x86_64-w64-windows-gnu")
    } else if same_text(os, "linux") {
        String::from_str("x86_64-unknown-linux-musl")
    } else if same_text(os, "macos") {
        if same_text(arch, "aarch64") {
            String::from_str("aarch64-apple-darwin")
        } else {
            String::from_str("x86_64-apple-darwin")
        }
    } else {
        String::from_str("x86_64-unknown-linux-musl")
    }
}

/// The C type that stands for a Sw type in exported C interfaces.
pub open spec fn c_type_spec(ty: Type) -> Seq<char> {
    match ty {
        Type::Nullable(inner) => c_type_base(*inner),
        _ => c_type_base(ty),
    }
}

/// The C type of a type that is not nullable.
pub open spec fn c_type_base(ty: Type) -> Seq<char> {
    match ty {
        Type::Void => "void"@,
        Type::Str => "sw_string*"@,
        Type::Array(_) => "sw_array*"@,
        Type::Class(_) | Type::Struct(_) => "void*"@,
        Type::F32 | Type::F64 => "double"@,
        _ => "long long"@,
    }
}

/// The C type that stands for a Sw type in exported C interfaces.
pub fn c_type(ty: &Type) -> (r: String)
    ensures
        r@ == c_type_spec(*ty),
{
    let t = ty.without_nullable();
    match t {
        Type::Void => String::from_str("void"),
        Type::Str => String::from_str("sw_string*"),
        Type::Array(_) => String::from_str("sw_array*"),
        Type::Class(_) | Type::Struct(_) => String::from_str("void*"),
        Type::F32 | Type::F64 => String::from_str("double"),
        _ => String::from_str("long long"),
    }
}

// ---------------------------------------------------------------------------
// Options.
// ---------------------------------------------------------------------------

/// The options of `build`, `run` and `test`.
pub struct BuildOptions {
    pub output: Option<String>,
    pub target: String,
    pub emit_object: Option<String>,
    /// Arguments handed to the program by `run`.
    pub run_args: Vec<String>,
}

/// The options as far as the arguments give them.
pub struct OptionsV {
    pub output: Option<Seq<char>>,
    pub target: Option<Seq<char>>,
    pub emit_object: Option<Seq<char>>,
    pub run_args: Seq<Seq<char>>,
}

/// The argument at `j`, if there is one.
pub open spec fn arg_at(args: Seq<Seq<char>>, j: int) -> Option<Seq<char>> {
    if 0 <= j < args.len() {
        Some(args[j])
    } else {
        None
    }
}

/// The options after reading the arguments from index `i` on: `-o`/`--output`,
/// `--target` and `--emit-object` take the next argument (none when it is missing,
/// the last one given wins), other arguments starting with `-` are skipped, and the
/// rest are handed to the program.
pub open spec fn scan_options(args: Seq<Seq<char>>, i: int, acc: OptionsV) -> OptionsV
    decreases args.len() + 1 - i,
{
    if i < 0 || i >= args.len() {
        acc
    } else {
        let a = args[i];
        if a == "-o"@ || a == "--output"@ {
            scan_options(args, i + 2, OptionsV { output: arg_at(args, i + 1), ..acc })
        } else if a == "--target"@ {
            scan_options(args, i + 2, OptionsV { target: arg_at(args, i + 1), ..acc })
        } else if a == "--emit-object"@ {
            scan_options(args, i + 2, OptionsV { emit_object: arg_at(args, i + 1), ..acc })
        } else if starts_with(a, "-"@) {
            scan_options(args, i + 1, acc)
        } else {
            scan_options(args, i + 1, OptionsV { run_args: acc.run_args.push(a), ..acc })
        }
    }
}

/// The view of an optional string.
pub open spec fn opt_str(s: Option<String>) -> Option<Seq<char>> {
    match s {
        Some(t) => Some(t@),
        None => None,
    }
}

fn arg_clone(args: &Vec<String>, j: usize) -> (r: Option<String>)
    ensures
        opt_str(r) == arg_at(strs_view(args@), j as int),
{
    if j < args.len() {
        Some(args[j].clone())
    } else {
        None
    }
}

/// Reads the options that follow `swc <command> <file>` (from the fourth argument
/// on); without `--target`, the host's target (`os`, `arch` as `std::env::consts`
/// name them).
pub fn parse_options(args: &Vec<String>, os: &str, arch: &str) -> (r: BuildOptions)
    ensures
        ({
            let v = scan_options(
                strs_view(args@),
                3,
                OptionsV { output: None, target: None, emit_object: None, run_args: seq![] },
            );
            &&& opt_str(r.output) == v.output
            &&& opt_str(r.emit_object) == v.emit_object
            &&& strs_view(r.run_args@) == v.run_args
            &&& r.target@ == (match v.target {
                Some(t) => t,
                None => default_target_spec(os@, arch@),
            })
        }),
{
    let ghost a = strs_view(args@);
    let ghost start = OptionsV { output: None, target: None, emit_object: None, run_args: seq![] };
    let mut output: Option<String> = None;
    let mut target: Option<String> = None;
    let mut emit_object: Option<String> = None;
    let mut run_args: Vec<String> = Vec::new();
    let mut index: usize = 3;
    assert(strs_view(run_args@) =~= Seq::<Seq<char>>::empty());
    while index < args.len()
        invariant
            a == strs_view(args@),
            scan_options(a, 3, start) == scan_options(
                a,
                index as int,
                OptionsV {
                    output: opt_str(output),
                    target: opt_str(target),
                    emit_object: opt_str(emit_object),
                    run_args: strs_view(run_args@),
                },
            ),
        decreases args@.len() - index,
    {
        let arg = args[index].as_str();
        let next: usize = if index + 1 < args.len() {
            index + 2
        } else {
            args.len()
        };
        if same_text(arg, "-o") || same_text(arg, "--output") {
            output = arg_clone(args, index + 1);
            index = next;
        } else if same_text(arg, "--target") {
            target = arg_clone(args, index + 1);
            index = next;
        } else if same_text(arg, "--emit-object") {
            emit_object = arg_clone(args, index + 1);
            index = next;
        } else if starts_with_text(arg, "-") {
            index += 1;
        } else {
            let ghost before = run_args@;
            run_args.push(args[index].clone());
            assert(strs_view(run_args@) =~= strs_view(before).push(a[index as int]));
            index += 1;
        }
    }
    let target = match target {
        Some(t) => t,
        None => default_target(os, arch),
    };
    BuildOptions { output, target, emit_object, run_args }
}


// ---------------------------------------------------------------------------
// The project file `swcc.toml`.
// ---------------------------------------------------------------------------

/// What a build makes.
#[derive(Clone, Copy, Debug, PartialEq, Eq, Structural)]
pub enum BuildKind {
    Console,
    Dll,
    Lib,
}

/// The settings of `swcc.toml` that the driver reads: `[build] kind`, and the
/// library name from `[lib] name` or `[project] name` (the first one given).
pub struct SwConfig {
    pub kind: BuildKind,
    pub lib_name: String,
}

/// The state of reading `swcc.toml`: the current section and what was read so far.
pub struct ConfigState {
    pub section: Seq<char>,
    pub kind: BuildKind,
    pub lib_name: Seq<char>,
}

/// `s` without the leading copies of `c`.
pub open spec fn strip_start_char(s: Seq<char>, c: char) -> Seq<char>
    decreases s.len(),
{
    if s.len() > 0 && s[0] == c {
        strip_start_char(s.drop_first(), c)
    } else {
        s
    }
}

/// `s` without the trailing copies of `c`.
pub open spec fn strip_end_char(s: Seq<char>, c: char) -> Seq<char>
    decreases s.len(),
{
    if s.len() > 0 && s.last() == c {
        strip_end_char(s.drop_last(), c)
    } else {
        s
    }
}

/// `s` without leading and trailing copies of `c` (`str::trim_matches`).
pub open spec fn strip_char(s: Seq<char>, c: char) -> Seq<char> {
    strip_end_char(strip_start_char(s, c), c)
}

/// The kind that a `kind` value names.
pub open spec fn kind_of(value: Seq<char>) -> BuildKind {
    if value == "dll"@ {
        BuildKind::Dll
    } else if value == "lib"@ {
        BuildKind::Lib
    } else {
        BuildKind::Console
    }
}

/// The state after one line of `swcc.toml`.
pub open spec fn config_line(st: ConfigState, raw: Seq<char>) -> ConfigState {
    let line = trim(raw);
    if starts_with(line, "["@) && ends_with(line, "]"@) {
        ConfigState { section: trim(line.subrange(1, line.len() - 1)), ..st }
    } else {
        match find(line, "="@) {
            Some(k) => {
                let key = trim(line.take(k));
                let value = strip_char(strip_char(trim(line.skip(k + 1)), '"'), '\'');
                if st.section == "build"@ && key == "kind"@ {
                    ConfigState { kind: kind_of(value), ..st }
                } else if (st.section == "lib"@ || st.section == "project"@) && key == "name"@
                    && st.lib_name.len() == 0 {
                    ConfigState { lib_name: value, ..st }
                } else {
                    st
                }
            },
            None => st,
        }
    }
}

/// The state after the lines of `t` from index `i` on.
pub open spec fn config_from(t: Seq<char>, i: int, st: ConfigState) -> ConfigState
    decreases t.len() + 1 - i,
{
    if i < 0 || i >= t.len() {
        st
    } else {
        proof {
            lemma_line_end(t, i);
        }
        config_from(t, line_end(t, i) + 1, config_line(st, t.subrange(i, line_end(t, i))))
    }
}

/// The settings of the text of a `swcc.toml`.
pub open spec fn config_of(t: Seq<char>) -> ConfigState {
    config_from(t, 0, ConfigState { section: Seq::empty(), kind: BuildKind::Console, lib_name: Seq::empty() })
}

/// `s` without leading and trailing white space.
fn trim_chars(s: &Vec<char>) -> (r: Vec<char>)
    ensures
        r@ == trim(s@),
{
    let n = s.len();
    let a = skip_ws_in(s, 0, n);
    let b = skip_ws_back(s, a, n);
    assert(s@.subrange(0, n as int) =~= s@);
    slice_chars(s, a, b)
}

/// `s` without leading and trailing copies of `c`.
fn strip_char_exec(s: &Vec<char>, c: char) -> (r: Vec<char>)
    ensures
        r@ == strip_char(s@, c),
{
    let n = s.len();
    let mut a: usize = 0;
    assert(s@.subrange(0, n as int) =~= s@);
    while a < n && s[a] == c
        invariant
            n == s@.len(),
            a <= n,
            strip_start_char(s@.subrange(a as int, n as int), c) == strip_start_char(s@, c),
        decreases n - a,
    {
        assert(s@.subrange(a as int, n as int).drop_first() =~= s@.subrange(a + 1, n as int));
        a += 1;
    }
    assert(s@.subrange(0, n as int) =~= s@);
    let mut b: usize = n;
    while b > a && s[b - 1] == c
        invariant
            n == s@.len(),
            a <= b <= n,
            strip_start_char(s@, c) == s@.subrange(a as int, n as int),
            strip_end_char(s@.subrange(a as int, b as int), c) == strip_char(s@, c),
        decreases b - a,
    {
        assert(s@.subrange(a as int, b as int).drop_last() =~= s@.subrange(a as int, b - 1));
        b -= 1;
    }
    slice_chars(s, a, b)
}

/// The settings that the text of a `swcc.toml` gives.
pub fn parse_config(text: &str) -> (r: SwConfig)
    ensures
        r.kind == config_of(text@).kind,
        r.lib_name@ == config_of(text@).lib_name,
{
    let t = chars_of(text);
    let n = t.len();
    let mut section: Vec<char> = Vec::new();
    let mut kind = BuildKind::Console;
    let mut lib_name: Vec<char> = Vec::new();
    let mut i: usize = 0;
    while i < n
        invariant
            n == t@.len(),
            t@ == text@,
            config_of(text@) == config_from(t@, i as int, ConfigState { section: section@, kind, lib_name: lib_name@ }),
        decreases n - i,
    {
        let mut e = i;
        while e < n && t[e] != '\n'
            invariant
                i <= e <= n,
                n == t@.len(),
                line_end(t@, i as int) == line_end(t@, e as int),
            decreases n - e,
        {
            e += 1;
        }
        let ghost st0 = ConfigState { section: section@, kind, lib_name: lib_name@ };
        let raw = slice_chars(&t, i, e);
        let line = trim_chars(&raw);
        let ll = line.len();
        let opens = ll > 0 && line[0] == '[';
        let closes = ll > 0 && line[ll - 1] == ']';
        proof {
            assert(opens == starts_with(line@, "["@)) by {
                reveal_strlit("[");
                assert("["@.len() == 1);
                assert("["@[0] == '[');
                assert("["@ =~= seq!['[']);
                if ll > 0 {
                    assert(line@.take(1) =~= seq![line@[0]]);
                }
            }
            assert(closes == ends_with(line@, "]"@)) by {
                reveal_strlit("]");
                assert("]"@.len() == 1);
                assert("]"@[0] == ']');
                assert("]"@ =~= seq![']']);
                if ll > 0 {
                    assert(line@.skip(ll - 1) =~= seq![line@[ll - 1]]);
                }
            }
        }
        if opens && closes {
            let inner = slice_chars(&line, 1, ll - 1);
            section = trim_chars(&inner);
        } else {
            let eq: Vec<char> = chars_of("=");
            match find_exec(&line, &eq, 0) {
                Some(k) => {
                    let left = slice_chars(&line, 0, k);
                    assert(left@ =~= line@.take(k as int));
                    let key = trim_chars(&left);
                    proof {
                        reveal_strlit("=");
                    }
                    let right = slice_chars(&line, k + 1, ll);
                    assert(right@ =~= line@.skip(k + 1));
                    let value = strip_char_exec(&strip_char_exec(&trim_chars(&right), '"'), '\'');
                    assert(eq@ =~= "="@);
                    let key_s = string_from_chars(&key);
                    let sec_s = string_from_chars(&section);
                    let value_s = string_from_chars(&value);
                    if same_text(sec_s.as_str(), "build") && same_text(key_s.as_str(), "kind") {
                        kind = if same_text(value_s.as_str(), "dll") {
                            BuildKind::Dll
                        } else if same_text(value_s.as_str(), "lib") {
                            BuildKind::Lib
                        } else {
                            BuildKind::Console
                        };
                    } else if (same_text(sec_s.as_str(), "lib") || same_text(sec_s.as_str(), "project"))
                        && same_text(key_s.as_str(), "name") && lib_name.len() == 0 {
                        lib_name = value;
                    }
                },
                None => {},
            }
        }
        proof {
            lemma_line_end(t@, i as int);
            assert(ConfigState { section: section@, kind, lib_name: lib_name@ } == config_line(st0, raw@));
            assert(line_end(t@, e as int) == e);
            assert(config_from(t@, i as int, st0) == config_from(t@, e + 1, config_line(st0, raw@)));
        }
        i = if e < n {
            e + 1
        } else {
            n
        };
    }
    SwConfig { kind, lib_name: string_from_chars(&lib_name) }
}


// ---------------------------------------------------------------------------
// Output names.
// ---------------------------------------------------------------------------

/// The suffix of what a build of `kind` makes for a target.
pub open spec fn output_suffix(kind: BuildKind, target: Seq<char>) -> Seq<char> {
    let family = family_of(target);
    match kind {
        BuildKind::Console => if family == "windows"@ {
            ".exe"@
        } else {
            ""@
        },
        BuildKind::Dll => if family == "windows"@ {
            ".dll"@
        } else if family == "linux"@ {
            ".so"@
        } else if family == "macos"@ {
            ".dylib"@
        } else {
            ".dll"@
        },
        BuildKind::Lib => if family == "windows"@ {
            ".lib"@
        } else {
            ".a"@
        },
    }
}

/// The file that a build writes: the `-o` option, else the library name of the
/// project (or the stem of the source file) with the suffix of what is built.
pub fn output_name(output: &Option<String>, config: &SwConfig, stem: &str, target: &str) -> (r: String)
    ensures
        r@ == (match output {
            Some(o) => o@,
            None => (if config.lib_name@.len() == 0 {
                stem@
            } else {
                config.lib_name@
            }) + output_suffix(config.kind, target@),
        }),
{
    match output {
        Some(o) => o.clone(),
        None => {
            let mut out: Vec<char> = Vec::new();
            if config.lib_name.as_str().is_empty() {
                push_str(&mut out, stem);
            } else {
                push_str(&mut out, config.lib_name.as_str());
            }
            let family = target_family(target);
            let suffix: &str = match config.kind {
                BuildKind::Console => executable_suffix(target),
                BuildKind::Dll => if same_text(family, "windows") {
                    ".dll"
                } else if same_text(family, "linux") {
                    ".so"
                } else if same_text(family, "macos") {
                    ".dylib"
                } else {
                    ".dll"
                },
                BuildKind::Lib => if same_text(family, "windows") {
                    ".lib"
                } else {
                    ".a"
                },
            };
            push_str(&mut out, suffix);
            string_from_chars(&out)
        },
    }
}

/// An ASCII letter or digit.
pub open spec fn ascii_alnum(c: char) -> bool {
    ('0' <= c && c <= '9') || ('a' <= c && c <= 'z') || ('A' <= c && c <= 'Z')
}

/// `s` with every character that is not an ASCII letter or digit turned into `_`.
pub open spec fn tag_of(s: Seq<char>) -> Seq<char> {
    Seq::new(
        s.len(),
        |i: int|
            if ascii_alnum(s[i]) {
                s[i]
            } else {
                '_'
            },
    )
}

/// Appends `s` with every character that is not an ASCII letter or digit turned
/// into `_`.
fn push_tag(out: &mut Vec<char>, s: &str)
    ensures
        final(out)@ == old(out)@ + tag_of(s@),
{
    let t = chars_of(s);
    let ghost head = out@;
    let mut i: usize = 0;
    while i < t.len()
        invariant
            t@ == s@,
            i <= t@.len(),
            out@ == head + tag_of(s@).take(i as int),
        decreases t@.len() - i,
    {
        let c = t[i];
        let ok = ('0' <= c && c <= '9') || ('a' <= c && c <= 'z') || ('A' <= c && c <= 'Z');
        out.push(if ok {
            c
        } else {
            '_'
        });
        i += 1;
        assert(out@ =~= head + tag_of(s@).take(i as int));
    }
    assert(tag_of(s@).take(i as int) =~= tag_of(s@));
}

/// A target triple made fit for file names.
pub fn target_tag(target: &str) -> (r: String)
    ensures
        r@ == tag_of(target@),
{
    let mut out: Vec<char> = Vec::new();
    push_tag(&mut out, target);
    assert(out@ =~= tag_of(target@));
    string_from_chars(&out)
}

// ---------------------------------------------------------------------------
// Exported functions: the `.def` file, the C header and the forwarding stubs.
// ---------------------------------------------------------------------------

/// A function that the library exports under its source name.
pub open spec fn is_export(f: MirFunction) -> bool {
    !f.extern_c && f.user_name@.len() > 0 && f.name@ != "sw_user_main"@ && f.exported
}

fn exported(f: &MirFunction) -> (r: bool)
    ensures
        r == is_export(*f),
{
    !f.extern_c && !f.user_name.as_str().is_empty() && !same_text(f.name.as_str(), "sw_user_main") && f.exported
}

/// `items` separated by `sep`.
pub open spec fn sep_join(items: Seq<Seq<char>>, sep: Seq<char>) -> Seq<char>
    decreases items.len(),
{
    if items.len() == 0 {
        Seq::empty()
    } else if items.len() == 1 {
        items[0]
    } else {
        sep_join(items.drop_last(), sep) + sep + items.last()
    }
}

proof fn lemma_sep_join_step(items: Seq<Seq<char>>, sep: Seq<char>, i: int)
    requires
        0 <= i < items.len(),
    ensures
        sep_join(items.take(i + 1), sep) == sep_join(items.take(i), sep) + (if i == 0 {
            Seq::empty()
        } else {
            sep
        }) + items[i],
{
    assert(items.take(i + 1).drop_last() =~= items.take(i));
    if i == 0 {
        assert(sep_join(items.take(0), sep) =~= Seq::<char>::empty());
        assert(Seq::<char>::empty() + Seq::<char>::empty() + items[0] =~= items[0]);
    }
}

/// The line of the `.def` file for a function.
pub open spec fn def_line(f: MirFunction) -> Seq<char> {
    if is_export(f) {
        f.user_name@ + " = "@ + f.name@ + "\n"@
    } else {
        Seq::empty()
    }
}

/// The C declaration of a parameter in the header.
pub open spec fn param_decl(p: MirParam) -> Seq<char> {
    c_type_spec(p.ty) + " "@ + p.name@
}

/// The header's declaration of a function.
pub open spec fn header_line(f: MirFunction) -> Seq<char> {
    if is_export(f) {
        "extern "@ + c_type_spec(f.ret) + " "@ + f.user_name@ + "("@ + sep_join(
            Seq::new(f.params@.len(), |i: int| param_decl(f.params@[i])),
            ", "@,
        ) + ");\n"@
    } else {
        Seq::empty()
    }
}

/// The stub's parameter list of a function: the C type and `p` with the index.
pub open spec fn stub_signature(f: MirFunction) -> Seq<char> {
    sep_join(Seq::new(f.params@.len(), |i: int| c_type_spec(f.params@[i].ty) + " p"@ + decimal(i as nat)), ", "@)
}

/// The stub's arguments of a function: `p` with the index.
pub open spec fn stub_args(f: MirFunction) -> Seq<char> {
    sep_join(Seq::new(f.params@.len(), |i: int| "p"@ + decimal(i as nat)), ", "@)
}

/// The forwarding stub of a function: its generated symbol declared, and a function
/// under its source name that calls it.
pub open spec fn stub_lines(f: MirFunction) -> Seq<char> {
    if is_export(f) {
        let ret = c_type_spec(f.ret);
        ret + " "@ + f.name@ + "("@ + stub_signature(f) + ");\n"@ + ret + " "@ + f.user_name@ + "("@
            + stub_signature(f) + ") {\n    return "@ + f.name@ + "("@ + stub_args(f) + ");\n}\n"@
    } else {
        Seq::empty()
    }
}

/// What `line` gives for each function of `fs`, in order.
pub open spec fn each_function(fs: Seq<MirFunction>, line: spec_fn(MirFunction) -> Seq<char>) -> Seq<char>
    decreases fs.len(),
{
    if fs.len() == 0 {
        Seq::empty()
    } else {
        each_function(fs.drop_last(), line) + line(fs.last())
    }
}

/// What `line` gives for each function of each module of `ms`, in order.
pub open spec fn each_module(ms: Seq<MirModule>, line: spec_fn(MirFunction) -> Seq<char>) -> Seq<char>
    decreases ms.len(),
{
    if ms.len() == 0 {
        Seq::empty()
    } else {
        each_module(ms.drop_last(), line) + each_function(ms.last().functions@, line)
    }
}

/// Some module has a function that the library exports.
pub open spec fn has_export(ms: Seq<MirModule>) -> bool {
    exists|i: int, j: int|
        0 <= i < ms.len() && 0 <= j < ms[i].functions@.len() && #[trigger] is_export(ms[i].functions@[j])
}

/// The text of the `.def` file that exports the library's functions by source name.
pub open spec fn def_text_spec(ms: Seq<MirModule>) -> Seq<char> {
    "EXPORTS\n"@ + each_module(ms, |f: MirFunction| def_line(f))
}

/// The C declarations of the runtime's string and array.
pub open spec fn c_typedefs() -> Seq<char> {
    "typedef struct sw_string { char* data; long long len; } sw_string;\ntypedef struct sw_array { long long len; long long cap; void* data; } sw_array;\n"@
}

/// The include guard of the header of a library file with the given stem.
pub open spec fn header_guard(stem: Option<Seq<char>>) -> Seq<char> {
    "SW_"@ + (match stem {
        Some(s) => tag_of(s),
        None => "sw"@,
    }) + "_H"@
}

/// The text of the C header that declares the library's exported functions.
pub open spec fn header_text_spec(ms: Seq<MirModule>, stem: Option<Seq<char>>) -> Seq<char> {
    let guard = header_guard(stem);
    "#ifndef "@ + guard + "\n#define "@ + guard + "\n\n"@
        + "// 由 swc 生成：Sw 模块导出的 C 接口（按源码 `export function` 收集）。\n"@ + c_typedefs() + "\n"@
        + each_module(ms, |f: MirFunction| header_line(f)) + "\n#endif // "@ + guard + "\n"@
}

/// The C source of the forwarding stubs, if the library exports any function.
pub open spec fn stub_text_spec(ms: Seq<MirModule>) -> Option<Seq<char>> {
    if has_export(ms) {
        Some(c_typedefs() + each_module(ms, |f: MirFunction| stub_lines(f)))
    } else {
        None
    }
}

/// Appends what `line` gives for each function of each module, for one kind of line.
fn push_lines(out: &mut Vec<char>, modules: &Vec<MirModule>, which: u8) -> (found: bool)
    requires
        which < 3,
    ensures
        final(out)@ == old(out)@ + each_module(modules@, line_kind(which)),
        found == has_export(modules@),
{
    let ghost head = out@;
    let ghost line = line_kind(which);
    let mut found = false;
    let mut i: usize = 0;
    while i < modules.len()
        invariant
            i <= modules@.len(),
            which < 3,
            line == line_kind(which),
            out@ == head + each_module(modules@.take(i as int), line),
            found == exists|a: int, b: int|
                0 <= a < i && 0 <= b < modules@[a].functions@.len() && #[trigger] is_export(modules@[a].functions@[b]),
        decreases modules@.len() - i,
    {
        let functions = &modules[i].functions;
        let ghost mid = out@;
        let mut j: usize = 0;
        let ghost found_before = found;
        while j < functions.len()
            invariant
                i < modules@.len(),
                *functions == modules@[i as int].functions,
                j <= functions@.len(),
                which < 3,
                line == line_kind(which),
                out@ == mid + each_function(functions@.take(j as int), line),
                found == (found_before || exists|b: int| 0 <= b < j && #[trigger] is_export(functions@[b])),
            decreases functions@.len() - j,
        {
            let f = &functions[j];
            let ghost before = out@;
            let e = exported(f);
            if e {
                found = true;
                if which == 0 {
                    push_def_line(out, f);
                } else if which == 1 {
                    push_header_line(out, f);
                } else {
                    push_stub_lines(out, f);
                }
            }
            proof {
                assert(functions@.take(j + 1).drop_last() =~= functions@.take(j as int));
                if !e {
                    assert(line(*f) =~= Seq::<char>::empty());
                }
                assert(out@ =~= mid + each_function(functions@.take(j + 1), line));
            }
            j += 1;
        }
        proof {
            assert(functions@.take(j as int) =~= functions@);
            assert(modules@.take(i + 1).drop_last() =~= modules@.take(i as int));
            assert(out@ =~= head + each_module(modules@.take(i + 1), line));
            if found {
                if !found_before {
                    let b = choose|b: int| 0 <= b < j && #[trigger] is_export(functions@[b]);
                    assert(is_export(modules@[i as int].functions@[b]));
                }
            } else {
                assert forall|a: int, b: int|
                    0 <= a < i + 1 && 0 <= b < modules@[a].functions@.len() implies !#[trigger] is_export(
                    modules@[a].functions@[b],
                ) by {
                    if a == i {
                        assert(!is_export(functions@[b]));
                    }
                }
            }
        }
        i += 1;
    }
    assert(modules@.take(i as int) =~= modules@);
    found
}

/// The kind of line that `push_lines` writes: `.def` lines, header declarations or
/// forwarding stubs.
pub open spec fn line_kind(which: u8) -> spec_fn(MirFunction) -> Seq<char> {
    if which == 0 {
        |f: MirFunction| def_line(f)
    } else if which == 1 {
        |f: MirFunction| header_line(f)
    } else {
        |f: MirFunction| stub_lines(f)
    }
}

fn push_def_line(out: &mut Vec<char>, f: &MirFunction)
    requires
        is_export(*f),
    ensures
        final(out)@ == old(out)@ + def_line(*f),
{
    let ghost head = out@;
    push_str(out, f.user_name.as_str());
    push_str(out, " = ");
    push_str(out, f.name.as_str());
    push_str(out, "\n");
    assert(out@ =~= head + def_line(*f));
}

fn push_header_line(out: &mut Vec<char>, f: &MirFunction)
    requires
        is_export(*f),
    ensures
        final(out)@ == old(out)@ + header_line(*f),
{
    let ghost head = out@;
    push_str(out, "extern ");
    let ret = c_type(&f.ret);
    push_str(out, ret.as_str());
    push_str(out, " ");
    push_str(out, f.user_name.as_str());
    push_str(out, "(");
    let ghost items = Seq::new(f.params@.len(), |i: int| param_decl(f.params@[i]));
    let ghost mid = out@;
    let mut i: usize = 0;
    while i < f.params.len()
        invariant
            i <= f.params@.len(),
            items == Seq::new(f.params@.len(), |i: int| param_decl(f.params@[i])),
            out@ == mid + sep_join(items.take(i as int), ", "@),
        decreases f.params@.len() - i,
    {
        proof {
            lemma_sep_join_step(items, ", "@, i as int);
        }
        let ghost before = out@;
        if i > 0 {
            push_str(out, ", ");
        }
        let p = &f.params[i];
        let t = c_type(&p.ty);
        push_str(out, t.as_str());
        push_str(out, " ");
        push_str(out, p.name.as_str());
        assert(out@ =~= mid + sep_join(items.take(i + 1), ", "@));
        i += 1;
    }
    assert(items.take(i as int) =~= items);
    push_str(out, ");\n");
    assert(out@ =~= head + header_line(*f));
}

/// Appends the stub parameter list (`types`) or argument list of a function.
fn push_stub_params(out: &mut Vec<char>, f: &MirFunction, types: bool)
    ensures
        final(out)@ == old(out)@ + (if types {
            stub_signature(*f)
        } else {
            stub_args(*f)
        }),
{
    let ghost items = if types {
        Seq::new(f.params@.len(), |i: int| c_type_spec(f.params@[i].ty) + " p"@ + decimal(i as nat))
    } else {
        Seq::new(f.params@.len(), |i: int| "p"@ + decimal(i as nat))
    };
    let ghost mid = out@;
    let mut i: usize = 0;
    while i < f.params.len()
        invariant
            i <= f.params@.len(),
            items == (if types {
                Seq::new(f.params@.len(), |i: int| c_type_spec(f.params@[i].ty) + " p"@ + decimal(i as nat))
            } else {
                Seq::new(f.params@.len(), |i: int| "p"@ + decimal(i as nat))
            }),
            out@ == mid + sep_join(items.take(i as int), ", "@),
        decreases f.params@.len() - i,
    {
        proof {
            lemma_sep_join_step(items, ", "@, i as int);
        }
        if i > 0 {
            push_str(out, ", ");
        }
        if types {
            let t = c_type(&f.params[i].ty);
            push_str(out, t.as_str());
            push_str(out, " p");
        } else {
            push_str(out, "p");
        }
        push_decimal(out, i as u64);
        assert(out@ =~= mid + sep_join(items.take(i + 1), ", "@));
        i += 1;
    }
    assert(items.take(i as int) =~= items);
}

fn push_stub_lines(out: &mut Vec<char>, f: &MirFunction)
    requires
        is_export(*f),
    ensures
        final(out)@ == old(out)@ + stub_lines(*f),
{
    let ghost head = out@;
    let ret = c_type(&f.ret);
    let mut sig: Vec<char> = Vec::new();
    push_stub_params(&mut sig, f, true);
    assert(sig@ =~= stub_signature(*f));
    let mut call: Vec<char> = Vec::new();
    push_stub_params(&mut call, f, false);
    assert(call@ =~= stub_args(*f));
    let sig_s = string_from_chars(&sig);
    let call_s = string_from_chars(&call);
    let mut text: Vec<char> = Vec::new();
    push_str(&mut text, ret.as_str());
    push_str(&mut text, " ");
    push_str(&mut text, f.name.as_str());
    push_str(&mut text, "(");
    push_str(&mut text, sig_s.as_str());
    push_str(&mut text, ");\n");
    push_str(&mut text, ret.as_str());
    push_str(&mut text, " ");
    push_str(&mut text, f.user_name.as_str());
    push_str(&mut text, "(");
    push_str(&mut text, sig_s.as_str());
    push_str(&mut text, ") {\n    return ");
    push_str(&mut text, f.name.as_str());
    push_str(&mut text, "(");
    push_str(&mut text, call_s.as_str());
    push_str(&mut text, ");\n}\n");
    assert(text@ =~= stub_lines(*f));
    let t = string_from_chars(&text);
    push_str(out, t.as_str());
}

/// The `.def` file that exports every exported function under its source name.
pub fn def_text(modules: &Vec<MirModule>) -> (r: String)
    ensures
        r@ == def_text_spec(modules@),
{
    let mut out: Vec<char> = Vec::new();
    push_str(&mut out, "EXPORTS\n");
    push_lines(&mut out, modules, 0);
    string_from_chars(&out)
}

/// The C header that declares the exported functions of a library whose file has
/// the stem `stem`.
pub fn header_text(modules: &Vec<MirModule>, stem: Option<&str>) -> (r: String)
    ensures
        r@ == header_text_spec(
            modules@,
            match stem {
                Some(s) => Some(s@),
                None => None,
            },
        ),
{
    let mut guard: Vec<char> = Vec::new();
    push_str(&mut guard, "SW_");
    match stem {
        Some(s) => push_tag(&mut guard, s),
        None => push_str(&mut guard, "sw"),
    }
    push_str(&mut guard, "_H");
    let g = string_from_chars(&guard);
    let mut out: Vec<char> = Vec::new();
    push_str(&mut out, "#ifndef ");
    push_str(&mut out, g.as_str());
    push_str(&mut out, "\n#define ");
    push_str(&mut out, g.as_str());
    push_str(&mut out, "\n\n");
    push_str(&mut out, "// 由 swc 生成：Sw 模块导出的 C 接口（按源码 `export function` 收集）。\n");
    push_str(
        &mut out,
        "typedef struct sw_string { char* data; long long len; } sw_string;\ntypedef struct sw_array { long long len; long long cap; void* data; } sw_array;\n",
    );
    push_str(&mut out, "\n");
    push_lines(&mut out, modules, 1);
    push_str(&mut out, "\n#endif // ");
    push_str(&mut out, g.as_str());
    push_str(&mut out, "\n");
    let ghost st = match stem {
        Some(s) => Some(s@),
        None => None,
    };
    assert(out@ =~= header_text_spec(modules@, st));
    string_from_chars(&out)
}

/// The C source of the stubs that forward from each exported function's source
/// name to its generated symbol; `None` when nothing is exported.
pub fn stub_text(modules: &Vec<MirModule>) -> (r: Option<String>)
    ensures
        match r {
            Some(t) => stub_text_spec(modules@) == Some(t@),
            None => stub_text_spec(modules@) is None,
        },
{
    let mut out: Vec<char> = Vec::new();
    push_str(
        &mut out,
        "typedef struct sw_string { char* data; long long len; } sw_string;\ntypedef struct sw_array { long long len; long long cap; void* data; } sw_array;\n",
    );
    let found = push_lines(&mut out, modules, 2);
    if found {
        Some(string_from_chars(&out))
    } else {
        None
    }
}


// ---------------------------------------------------------------------------
// The runtime and the cache of compiled objects.
// ---------------------------------------------------------------------------

/// Appends a string to a list of strings.
fn push_string(v: &mut Vec<String>, s: &str)
    ensures
        strs_view(final(v)@) == strs_view(old(v)@).push(s@),
{
    v.push(String::from_str(s));
    assert(strs_view(v@) =~= strs_view(old(v)@).push(s@));
}

/// Appends the strings of `items` to a list of strings.
fn push_strings(v: &mut Vec<String>, items: &Vec<String>)
    ensures
        strs_view(final(v)@) == strs_view(old(v)@) + strs_view(items@),
{
    let ghost head = strs_view(v@);
    let mut i: usize = 0;
    while i < items.len()
        invariant
            i <= items@.len(),
            strs_view(v@) == head + strs_view(items@).take(i as int),
        decreases items@.len() - i,
    {
        push_string(v, items[i].as_str());
        i += 1;
        assert(strs_view(v@) =~= head + strs_view(items@).take(i as int));
    }
    assert(strs_view(items@).take(i as int) =~= strs_view(items@));
}

/// `a` followed by `b`.
fn concat2(a: &str, b: &str) -> (r: String)
    ensures
        r@ == a@ + b@,
{
    let mut out: Vec<char> = Vec::new();
    push_str(&mut out, a);
    push_str(&mut out, b);
    string_from_chars(&out)
}

/// One compilation of a runtime source: the source file (in the runtime
/// directory), the object file (in the cache directory) and the compiler's options.
pub struct CompileTask {
    pub source: String,
    pub object: String,
    pub args: Vec<String>,
}

/// The mathematical form of a compilation.
pub open spec fn task_view(t: CompileTask) -> (Seq<char>, Seq<char>, Seq<Seq<char>>) {
    (t.source@, t.object@, strs_view(t.args@))
}

/// The object suffix of an operating-system family.
pub open spec fn object_suffix(family: Seq<char>) -> Seq<char> {
    if family == "windows"@ {
        "obj"@
    } else {
        "o"@
    }
}

/// The compilations that build the runtime for a target: the C runtime (without its
/// `main` for a library), the assembly runtime, and on Windows, for programs, the
/// start-up code.
pub open spec fn runtime_tasks_spec(target: Seq<char>, family: Seq<char>, no_main: bool) -> Seq<(Seq<char>, Seq<char>, Seq<Seq<char>>)> {
    let suffix = object_suffix(family);
    let tag = tag_of(target);
    let arch = arch_spec(target);
    let main_args = seq!["-target"@, target, "-O2"@] + (if no_main {
        seq!["-DSW_NO_MAIN"@]
    } else {
        seq![]
    }) + seq!["-ffunction-sections"@, "-fdata-sections"@, "-c"@];
    let asm_source = if arch == "aarch64"@ {
        "runtime_aarch64.s"@
    } else {
        "runtime_x64.S"@
    };
    let startup = if arch == "aarch64"@ {
        "startup_aarch64.s"@
    } else {
        "startup.s"@
    };
    seq![
        ("runtime.c"@, "runtime_"@ + (if no_main {
            "dll_"@
        } else {
            ""@
        }) + tag + "."@ + suffix, main_args),
        (asm_source, "runtime_asm_"@ + tag + "."@ + suffix, seq!["-target"@, target, "-c"@]),
    ] + (if family == "windows"@ && !no_main {
        seq![(startup, "startup_"@ + tag + "."@ + suffix, seq!["-target"@, target, "-c"@])]
    } else {
        seq![]
    })
}

/// A file name: `stem`, the target's tag, a dot and the suffix.
fn tagged_name(stem: &str, target: &str, suffix: &str) -> (r: String)
    ensures
        r@ == stem@ + tag_of(target@) + "."@ + suffix@,
{
    let mut out: Vec<char> = Vec::new();
    push_str(&mut out, stem);
    push_tag(&mut out, target);
    push_str(&mut out, ".");
    push_str(&mut out, suffix);
    string_from_chars(&out)
}

/// The compilations that build the runtime for a target (`family` is the family of
/// the runtime's flavour; `no_main` for a library, whose host program has the
/// `main`).
pub fn runtime_tasks(target: &str, family: &str, no_main: bool) -> (r: Vec<CompileTask>)
    ensures
        Seq::new(r@.len(), |i: int| task_view(r@[i])) == runtime_tasks_spec(target@, family@, no_main),
{
    let suffix: &str = if same_text(family, "windows") {
        "obj"
    } else {
        "o"
    };
    let arch = arch_of(target);
    let mut main_args: Vec<String> = Vec::new();
    push_string(&mut main_args, "-target");
    push_string(&mut main_args, target);
    push_string(&mut main_args, "-O2");
    if no_main {
        push_string(&mut main_args, "-DSW_NO_MAIN");
    }
    push_string(&mut main_args, "-ffunction-sections");
    push_string(&mut main_args, "-fdata-sections");
    push_string(&mut main_args, "-c");
    let mut short_args: Vec<String> = Vec::new();
    push_string(&mut short_args, "-target");
    push_string(&mut short_args, target);
    push_string(&mut short_args, "-c");
    let mut short_args2: Vec<String> = Vec::new();
    push_string(&mut short_args2, "-target");
    push_string(&mut short_args2, target);
    push_string(&mut short_args2, "-c");
    let stem: &str = if no_main {
        "runtime_dll_"
    } else {
        "runtime_"
    };
    let mut tasks: Vec<CompileTask> = Vec::new();
    tasks.push(
        CompileTask {
            source: String::from_str("runtime.c"),
            object: tagged_name(stem, target, suffix),
            args: main_args,
        },
    );
    tasks.push(
        CompileTask {
            source: String::from_str(runtime_asm_file(arch)),
            object: tagged_name("runtime_asm_", target, suffix),
            args: short_args,
        },
    );
    if same_text(family, "windows") && !no_main {
        tasks.push(
            CompileTask {
                source: String::from_str(startup_file(arch)),
                object: tagged_name("startup_", target, suffix),
                args: short_args2,
            },
        );
    }
    proof {
        reveal_strlit("runtime_dll_");
        reveal_strlit("runtime_");
        reveal_strlit("dll_");
        reveal_strlit("");
        assert("runtime_dll_"@ =~= "runtime_"@ + "dll_"@);
        assert("runtime_"@ =~= "runtime_"@ + ""@);
        let spec = runtime_tasks_spec(target@, family@, no_main);
        let views = Seq::new(tasks@.len(), |i: int| task_view(tasks@[i]));
        assert(strs_view(tasks@[0].args@) =~= spec[0].2);
        assert(strs_view(tasks@[1].args@) =~= spec[1].2);
        assert(views[0] == spec[0]);
        assert(views[1] == spec[1]);
        if family@ == "windows"@ && !no_main {
            assert(strs_view(tasks@[2].args@) =~= spec[2].2);
            assert(views[2] == spec[2]);
        }
        assert(views =~= spec);
    }
    tasks
}

/// Whether an object must be compiled again: it is missing, or its record of the
/// source's hash and the options (`saved`, the record on disk) differs from `current`.
/// An object compiled before records were kept (no `saved`), or whose source cannot be
/// hashed (`current` empty), is judged by modification time: it is kept while its
/// source is not newer (`mtime_stale`).
pub open spec fn should_compile_spec(object_exists: bool, mtime_stale: bool, current: Seq<char>, saved: Option<Seq<char>>) -> bool {
    let same = current.len() > 0 && saved == Some(current);
    let by_mtime = saved is None || current.len() == 0;
    !(object_exists && (same || (!mtime_stale && by_mtime)))
}

/// Whether an object must be compiled again (see `should_compile_spec`).
pub fn should_compile(object_exists: bool, mtime_stale: bool, current: &str, saved: Option<&str>) -> (r: bool)
    ensures
        r == should_compile_spec(
            object_exists,
            mtime_stale,
            current@,
            match saved {
                Some(s) => Some(s@),
                None => None,
            },
        ),
{
    let same = !current.is_empty() && match saved {
        Some(s) => same_text(s, current),
        None => false,
    };
    let by_mtime = saved.is_none() || current.is_empty();
    !(object_exists && (same || (!mtime_stale && by_mtime)))
}

/// The record kept beside an object: the source's hash and the compiler's options.
pub fn hash_record(hash: &str, prefix: &Vec<String>) -> (r: String)
    ensures
        r@ == hash@ + "\n"@ + sep_join(strs_view(prefix@), " "@),
{
    let mut out: Vec<char> = Vec::new();
    push_str(&mut out, hash);
    push_str(&mut out, "\n");
    let ghost head = out@;
    let ghost items = strs_view(prefix@);
    let mut i: usize = 0;
    while i < prefix.len()
        invariant
            i <= prefix@.len(),
            items == strs_view(prefix@),
            out@ == head + sep_join(items.take(i as int), " "@),
        decreases prefix@.len() - i,
    {
        proof {
            lemma_sep_join_step(items, " "@, i as int);
        }
        if i > 0 {
            push_str(&mut out, " ");
        }
        push_str(&mut out, prefix[i].as_str());
        assert(out@ =~= head + sep_join(items.take(i + 1), " "@));
        i += 1;
    }
    assert(items.take(i as int) =~= items);
    string_from_chars(&out)
}

/// The FNV-1a offset basis.
pub open spec fn fnv_basis() -> u64 {
    0xcbf29ce484222325
}

/// One FNV-1a step: mix in a byte, then multiply by the prime modulo 2^64.
pub open spec fn fnv_step(h: u64, b: u8) -> u64 {
    (((h ^ (b as u64)) as int * 0x100000001b3) % 0x1_0000_0000_0000_0000) as u64
}

/// The 64-bit FNV-1a hash of `bytes`.
pub open spec fn fnv1a(bytes: Seq<u8>) -> u64
    decreases bytes.len(),
{
    if bytes.len() == 0 {
        fnv_basis()
    } else {
        fnv_step(fnv1a(bytes.drop_last()), bytes.last())
    }
}

/// The `n` lowest hexadecimal digits of `h`, most significant first.
pub open spec fn hex_digits(h: nat, n: nat) -> Seq<char>
    decreases n,
{
    if n == 0 {
        Seq::empty()
    } else {
        hex_digits(h / 16, (n - 1) as nat).push(hex_digit(h % 16))
    }
}

fn push_hex(out: &mut Vec<char>, h: u64, n: u32)
    ensures
        final(out)@ == old(out)@ + hex_digits(h as nat, n as nat),
    decreases n,
{
    if n > 0 {
        push_hex(out, h / 16, n - 1);
        out.push(hex_digit_of((h % 16) as u32));
        assert(out@ =~= old(out)@ + hex_digits(h as nat, n as nat));
    } else {
        assert(out@ =~= old(out)@ + hex_digits(h as nat, n as nat));
    }
}

/// The content hash of a file's bytes: FNV-1a in 64 bits, as 16 lower-case
/// hexadecimal digits.
pub fn content_hash(bytes: &Vec<u8>) -> (r: String)
    ensures
        r@ == hex_digits(fnv1a(bytes@) as nat, 16),
{
    let mut hash: u64 = 0xcbf29ce484222325;
    let mut i: usize = 0;
    while i < bytes.len()
        invariant
            i <= bytes@.len(),
            hash == fnv1a(bytes@.take(i as int)),
        decreases bytes@.len() - i,
    {
        proof {
            assert(bytes@.take(i + 1).drop_last() =~= bytes@.take(i as int));
        }
        hash = hash ^ (bytes[i] as u64);
        hash = hash.wrapping_mul(0x100000001b3);
        i += 1;
    }
    assert(bytes@.take(i as int) =~= bytes@);
    let mut out: Vec<char> = Vec::new();
    push_hex(&mut out, hash, 16);
    assert(out@ =~= hex_digits(hash as nat, 16));
    string_from_chars(&out)
}


// ---------------------------------------------------------------------------
// Linking.
// ---------------------------------------------------------------------------

/// The prebuilt runtime objects that an SDK's `lib` directory holds for a target.
pub open spec fn prebuilt_runtime_spec(target: Seq<char>) -> Option<Seq<Seq<char>>> {
    let arch = arch_spec(target);
    let family = family_of(target);
    if family == "windows"@ {
        if arch == "aarch64"@ {
            Some(seq!["runtime_aarch64.obj"@, "runtime_asm_aarch64.obj"@, "startup_aarch64.obj"@])
        } else {
            Some(seq!["runtime.obj"@, "runtime_asm.obj"@, "startup.obj"@])
        }
    } else if family == "linux"@ {
        Some(seq!["runtime_"@ + arch + ".o"@, "runtime_asm_"@ + arch + ".o"@])
    } else {
        None
    }
}

/// The file names of the prebuilt runtime objects for a target, if it has any.
pub fn prebuilt_runtime_files(target: &str) -> (r: Option<Vec<String>>)
    ensures
        match r {
            Some(v) => prebuilt_runtime_spec(target@) == Some(strs_view(v@)),
            None => prebuilt_runtime_spec(target@) is None,
        },
{
    let arch = arch_of(target);
    let family = target_family(target);
    let mut v: Vec<String> = Vec::new();
    if same_text(family, "windows") {
        if same_text(arch, "aarch64") {
            push_string(&mut v, "runtime_aarch64.obj");
            push_string(&mut v, "runtime_asm_aarch64.obj");
            push_string(&mut v, "startup_aarch64.obj");
        } else {
            push_string(&mut v, "runtime.obj");
            push_string(&mut v, "runtime_asm.obj");
            push_string(&mut v, "startup.obj");
        }
        assert(strs_view(v@) =~= prebuilt_runtime_spec(target@)->0);
        Some(v)
    } else if same_text(family, "linux") {
        let a = concat2("runtime_", arch);
        let b = concat2(a.as_str(), ".o");
        let c = concat2("runtime_asm_", arch);
        let d = concat2(c.as_str(), ".o");
        push_string(&mut v, b.as_str());
        push_string(&mut v, d.as_str());
        assert(strs_view(v@) =~= prebuilt_runtime_spec(target@)->0);
        Some(v)
    } else {
        None
    }
}

/// The libraries that every Windows program links.
pub open spec fn windows_libraries() -> Seq<Seq<char>> {
    seq!["-lucrt"@, "-lucrtbase"@, "-lkernel32"@, "-lshell32"@, "-lole32"@, "-lws2_32"@]
}

/// The linker arguments for a Windows target: for a DLL, the import library and the
/// `.def` file (`dll`), else section garbage collection; then the objects, the
/// runtime, the MinGW libraries, compiler-rt and the output.
pub open spec fn windows_args_spec(
    target: Seq<char>,
    objects: Seq<Seq<char>>,
    runtime: Seq<Seq<char>>,
    lib_dir: Seq<char>,
    builtins: Seq<char>,
    output: Seq<char>,
    dll: Option<(Seq<char>, Seq<char>)>,
) -> Seq<Seq<char>> {
    let emulation = if arch_spec(target) == "aarch64"@ {
        "aarch64pe"@
    } else {
        "i386pep"@
    };
    seq!["-m"@, emulation] + (match dll {
        Some((implib, def)) => seq!["--dll"@, "--out-implib"@, implib, def],
        None => seq!["--gc-sections"@],
    }) + objects + runtime + seq!["-L"@, lib_dir] + windows_libraries() + seq![builtins, "-o"@, output]
}

/// The linker arguments for a Windows target (see `windows_args_spec`).
pub fn windows_link_args(
    target: &str,
    objects: &Vec<String>,
    runtime: &Vec<String>,
    lib_dir: &str,
    builtins: &str,
    output: &str,
    dll: Option<(&str, &str)>,
) -> (r: Vec<String>)
    ensures
        strs_view(r@) == windows_args_spec(
            target@,
            strs_view(objects@),
            strs_view(runtime@),
            lib_dir@,
            builtins@,
            output@,
            match dll {
                Some((a, b)) => Some((a@, b@)),
                None => None,
            },
        ),
{
    let mut v: Vec<String> = Vec::new();
    push_string(&mut v, "-m");
    push_string(&mut v, pe_emulation(arch_of(target)));
    match dll {
        Some((implib, def)) => {
            push_string(&mut v, "--dll");
            push_string(&mut v, "--out-implib");
            push_string(&mut v, implib);
            push_string(&mut v, def);
        },
        None => {
            push_string(&mut v, "--gc-sections");
        },
    }
    push_strings(&mut v, objects);
    push_strings(&mut v, runtime);
    push_string(&mut v, "-L");
    push_string(&mut v, lib_dir);
    push_string(&mut v, "-lucrt");
    push_string(&mut v, "-lucrtbase");
    push_string(&mut v, "-lkernel32");
    push_string(&mut v, "-lshell32");
    push_string(&mut v, "-lole32");
    push_string(&mut v, "-lws2_32");
    push_string(&mut v, builtins);
    push_string(&mut v, "-o");
    push_string(&mut v, output);
    let ghost d = match dll {
        Some((a, b)) => Some((a@, b@)),
        None => None,
    };
    assert(strs_view(v@) =~= windows_args_spec(
        target@,
        strs_view(objects@),
        strs_view(runtime@),
        lib_dir@,
        builtins@,
        output@,
        d,
    ));
    v
}

/// The musl files that a static Linux program links, in order, in the musl
/// library directory.
pub fn musl_link_files() -> (r: Vec<String>)
    ensures
        strs_view(r@) == seq!["crt1.o"@, "crti.o"@, "crtn.o"@, "libc.a"@],
{
    let mut v: Vec<String> = Vec::new();
    push_string(&mut v, "crt1.o");
    push_string(&mut v, "crti.o");
    push_string(&mut v, "crtn.o");
    push_string(&mut v, "libc.a");
    assert(strs_view(v@) =~= seq!["crt1.o"@, "crti.o"@, "crtn.o"@, "libc.a"@]);
    v
}

/// The linker arguments for a Linux target: shared or static, the objects, the
/// runtime, the musl files (`musl`, as paths), compiler-builtins on aarch64, and the
/// output.
pub open spec fn linux_args_spec(
    target: Seq<char>,
    objects: Seq<Seq<char>>,
    runtime: Seq<Seq<char>>,
    musl: Seq<Seq<char>>,
    builtins: Option<Seq<char>>,
    output: Seq<char>,
    dll: bool,
) -> Seq<Seq<char>> {
    let aarch64 = arch_spec(target) == "aarch64"@;
    seq!["-m"@, if aarch64 {
        "aarch64elf"@
    } else {
        "elf_x86_64"@
    }] + (if dll {
        seq!["-shared"@]
    } else {
        seq!["-static"@, "--gc-sections"@]
    }) + objects + runtime + musl + (if aarch64 {
        seq![builtins->0]
    } else {
        seq![]
    }) + seq!["-o"@, output]
}

/// The linker arguments for a Linux target (see `linux_args_spec`); on aarch64 the
/// compiler-builtins archive must be given.
pub fn linux_link_args(
    target: &str,
    objects: &Vec<String>,
    runtime: &Vec<String>,
    musl: &Vec<String>,
    builtins: Option<&str>,
    output: &str,
    dll: bool,
) -> (r: Vec<String>)
    requires
        arch_spec(target@) == "aarch64"@ ==> builtins is Some,
    ensures
        strs_view(r@) == linux_args_spec(
            target@,
            strs_view(objects@),
            strs_view(runtime@),
            strs_view(musl@),
            match builtins {
                Some(b) => Some(b@),
                None => None,
            },
            output@,
            dll,
        ),
{
    let arch = arch_of(target);
    let mut v: Vec<String> = Vec::new();
    push_string(&mut v, "-m");
    push_string(&mut v, elf_emulation(arch));
    if dll {
        push_string(&mut v, "-shared");
    } else {
        push_string(&mut v, "-static");
        push_string(&mut v, "--gc-sections");
    }
    push_strings(&mut v, objects);
    push_strings(&mut v, runtime);
    push_strings(&mut v, musl);
    let ghost mid = strs_view(v@);
    if same_text(arch, "aarch64") {
        match builtins {
            Some(b) => push_string(&mut v, b),
            None => {},
        }
    }
    push_string(&mut v, "-o");
    push_string(&mut v, output);
    let ghost b = match builtins {
        Some(b) => Some(b@),
        None => None,
    };
    assert(strs_view(v@) =~= linux_args_spec(
        target@,
        strs_view(objects@),
        strs_view(runtime@),
        strs_view(musl@),
        b,
        output@,
        dll,
    ));
    v
}

/// The arguments of the system C compiler that links for macOS.
pub open spec fn macos_args_spec(target: Seq<char>, objects: Seq<Seq<char>>, runtime: Seq<Seq<char>>, output: Seq<char>, dll: bool) -> Seq<Seq<char>> {
    seq!["-target"@, target] + (if dll {
        seq!["-dynamiclib"@]
    } else {
        seq!["-Wl,-dead_strip"@]
    }) + objects + runtime + seq!["-o"@, output]
}

/// The arguments of the system C compiler that links for macOS.
pub fn macos_link_args(target: &str, objects: &Vec<String>, runtime: &Vec<String>, output: &str, dll: bool) -> (r: Vec<String>)
    ensures
        strs_view(r@) == macos_args_spec(target@, strs_view(objects@), strs_view(runtime@), output@, dll),
{
    let mut v: Vec<String> = Vec::new();
    push_string(&mut v, "-target");
    push_string(&mut v, target);
    if dll {
        push_string(&mut v, "-dynamiclib");
    } else {
        push_string(&mut v, "-Wl,-dead_strip");
    }
    push_strings(&mut v, objects);
    push_strings(&mut v, runtime);
    push_string(&mut v, "-o");
    push_string(&mut v, output);
    assert(strs_view(v@) =~= macos_args_spec(target@, strs_view(objects@), strs_view(runtime@), output@, dll));
    v
}

/// The arguments of `llvm-ar` that pack a static library: the objects and the
/// forwarding stub, if there is one.
pub fn archive_args(output: &str, objects: &Vec<String>, stub: Option<&str>) -> (r: Vec<String>)
    ensures
        strs_view(r@) == seq!["rcs"@, output@] + strs_view(objects@) + (match stub {
            Some(s) => seq![s@],
            None => seq![],
        }),
{
    let mut v: Vec<String> = Vec::new();
    push_string(&mut v, "rcs");
    push_string(&mut v, output);
    push_strings(&mut v, objects);
    match stub {
        Some(s) => push_string(&mut v, s),
        None => {},
    }
    let ghost tail = match stub {
        Some(s) => seq![s@],
        None => Seq::<Seq<char>>::empty(),
    };
    assert(strs_view(v@) =~= seq!["rcs"@, output@] + strs_view(objects@) + tail);
    v
}

/// The object file of the forwarding stub for a target.
pub fn stub_object_name(target: &str) -> (r: String)
    ensures
        r@ == "lib_stub_"@ + tag_of(target@) + "."@ + object_suffix(family_of(target@)),
{
    let suffix: &str = if same_text(target_family(target), "windows") {
        "obj"
    } else {
        "o"
    };
    tagged_name("lib_stub_", target, suffix)
}

/// The compiler's arguments that build the forwarding stub.
pub fn stub_compile_args(target: &str, source: &str, object: &str) -> (r: Vec<String>)
    ensures
        strs_view(r@) == seq![
            "-target"@,
            target@,
            "-O2"@,
            "-ffunction-sections"@,
            "-fdata-sections"@,
            "-c"@,
            source@,
            "-o"@,
            object@,
        ],
{
    let mut v: Vec<String> = Vec::new();
    push_string(&mut v, "-target");
    push_string(&mut v, target);
    push_string(&mut v, "-O2");
    push_string(&mut v, "-ffunction-sections");
    push_string(&mut v, "-fdata-sections");
    push_string(&mut v, "-c");
    push_string(&mut v, source);
    push_string(&mut v, "-o");
    push_string(&mut v, object);
    assert(strs_view(v@) =~= seq![
        "-target"@,
        target@,
        "-O2"@,
        "-ffunction-sections"@,
        "-fdata-sections"@,
        "-c"@,
        source@,
        "-o"@,
        object@,
    ]);
    v
}


/// `s` from index `i` on, with every occurrence of `from` replaced by `to`
/// (`str::replace`).
pub open spec fn replace_from(s: Seq<char>, from: Seq<char>, to: Seq<char>, i: int) -> Seq<char>
    decreases s.len() + 1 - i,
{
    if i < 0 || i > s.len() || from.len() == 0 {
        Seq::empty()
    } else {
        match find_from(s, from, i) {
            Some(k) => {
                proof {
                    lemma_find_from_bounds(s, from, i);
                }
                s.subrange(i, k) + to + replace_from(s, from, to, k + from.len())
            },
            None => s.skip(i),
        }
    }
}

/// The `.def` file of a DLL: its file name with `.dll` replaced by `.def`
/// (`sw.def` when the output has no file name).
pub fn def_file_name(file_name: Option<&str>) -> (r: String)
    ensures
        r@ == replace_from(
            match file_name {
                Some(n) => n@,
                None => "sw.def"@,
            },
            ".dll"@,
            ".def"@,
            0,
        ),
{
    let name: &str = match file_name {
        Some(n) => n,
        None => "sw.def",
    };
    let t = chars_of(name);
    let pat = chars_of(".dll");
    proof {
        reveal_strlit(".dll");
        assert(pat@.len() == 4);
    }
    let mut out: Vec<char> = Vec::new();
    let mut i: usize = 0;
    let n = t.len();
    loop
        invariant
            n == t@.len(),
            name@ == (match file_name {
                Some(n) => n@,
                None => "sw.def"@,
            }),
            t@ == name@,
            pat@ == ".dll"@,
            pat@.len() == 4,
            i <= t@.len(),
            out@ + replace_from(t@, pat@, ".def"@, i as int) == replace_from(t@, pat@, ".def"@, 0),
        decreases t@.len() - i,
    {
        proof {
            lemma_find_from_bounds(t@, pat@, i as int);
        }
        match find_exec(&t, &pat, i) {
            Some(k) => {
                assert(k + 4 <= t@.len());
                let piece = slice_chars(&t, i, k);
                let ghost before = out@;
                let mut j: usize = 0;
                while j < piece.len()
                    invariant
                        j <= piece@.len(),
                        out@ == before + piece@.take(j as int),
                    decreases piece@.len() - j,
                {
                    out.push(piece[j]);
                    j += 1;
                    assert(out@ =~= before + piece@.take(j as int));
                }
                assert(piece@.take(j as int) =~= piece@);
                push_str(&mut out, ".def");
                assert(before + replace_from(t@, pat@, ".def"@, i as int) =~= out@ + replace_from(
                    t@,
                    pat@,
                    ".def"@,
                    k + 4,
                ));
                i = k + 4;
            },
            None => {
                let rest = slice_chars(&t, i, t.len());
                let ghost before = out@;
                let mut j: usize = 0;
                while j < rest.len()
                    invariant
                        j <= rest@.len(),
                        out@ == before + rest@.take(j as int),
                    decreases rest@.len() - j,
                {
                    out.push(rest[j]);
                    j += 1;
                    assert(out@ =~= before + rest@.take(j as int));
                }
                assert(rest@.take(j as int) =~= rest@);
                assert(rest@ =~= t@.skip(i as int));
                assert(out@ =~= replace_from(t@, pat@, ".def"@, 0));
                assert(name@ == (match file_name {
                    Some(n) => n@,
                    None => "sw.def"@,
                }));
                return string_from_chars(&out);
            },
        }
    }
}

/// The tool chain that rustup uses: the first directory, unless it is not a
/// `stable` one and a later one is.
pub open spec fn chosen_toolchain(entries: Seq<Seq<char>>) -> Option<Seq<char>> {
    if entries.len() == 0 {
        None
    } else if contains_str(entries[0], "stable"@) {
        Some(entries[0])
    } else if exists|k: int| 0 < k < entries.len() && contains_str(#[trigger] entries[k], "stable"@) {
        Some(
            entries[choose|k: int|
                0 < k < entries.len() && contains_str(#[trigger] entries[k], "stable"@) && forall|m: int|
                    0 < m < k ==> !contains_str(#[trigger] entries[m], "stable"@)],
        )
    } else {
        Some(entries[0])
    }
}

/// Chooses rustup's tool chain among the directories of `toolchains`, in the order
/// they were listed.
pub fn choose_toolchain(entries: &Vec<String>) -> (r: Option<String>)
    ensures
        opt_str(r) == chosen_toolchain(strs_view(entries@)),
{
    let ghost e = strs_view(entries@);
    if entries.len() == 0 {
        return None;
    }
    if contains_text(entries[0].as_str(), "stable") {
        assert(e[0] == entries@[0]@);
        return Some(entries[0].clone());
    }
    let mut k: usize = 1;
    while k < entries.len()
        invariant
            1 <= k <= entries@.len(),
            e == strs_view(entries@),
            !contains_str(e[0], "stable"@),
            forall|m: int| 0 < m < k ==> !contains_str(#[trigger] e[m], "stable"@),
        decreases entries@.len() - k,
    {
        if contains_text(entries[k].as_str(), "stable") {
            proof {
                assert(contains_str(e[k as int], "stable"@));
                assert(0 < k < e.len() && contains_str(e[k as int], "stable"@) && forall|m: int|
                    0 < m < k ==> !contains_str(#[trigger] e[m], "stable"@));
                let c = choose|c: int|
                    0 < c < e.len() && contains_str(#[trigger] e[c], "stable"@) && forall|m: int|
                        0 < m < c ==> !contains_str(#[trigger] e[m], "stable"@);
                if c < k {
                } else if c > k {
                    assert(!contains_str(e[k as int], "stable"@));
                }
                assert(c == k);
            }
            return Some(entries[k].clone());
        }
        k += 1;
    }
    assert(e[0] == entries@[0]@);
    Some(entries[0].clone())
}

/// A file name of the compiler-builtins archive in rustup's target libraries.
pub fn is_compiler_builtins(name: &str) -> (r: bool)
    ensures
        r == (starts_with(name@, "libcompiler_builtins-"@) && ends_with(name@, ".rlib"@)),
{
    starts_with_text(name, "libcompiler_builtins-") && ends_with_text(name, ".rlib")
}

/// The musl triple whose libraries a Linux target links: the target itself when it
/// is a musl one.
pub fn musl_library_triple(target: &str) -> (r: &str)
    ensures
        r@ == (if contains_str(target@, "musl"@) {
            target@
        } else {
            musl_triple(target@)
        }),
{
    if contains_text(target, "musl") {
        target
    } else {
        musl_target(target)
    }
}

// ---------------------------------------------------------------------------
// The command line.
// ---------------------------------------------------------------------------

/// What the command line asks for.
pub enum CliAction {
    /// Print the version.
    Version,
    /// Print the usage.
    Help,
    /// A command that does not exist.
    UnknownCommand(String),
    /// A command without the file it works on.
    MissingPath(String),
    /// `check`, `build`, `run` or `test` of a file.
    Run { command: String, path: String },
}

/// A word that asks for the usage.
pub open spec fn is_help(a: Seq<char>) -> bool {
    a == "help"@ || a == "--help"@ || a == "-h"@
}

/// A command that works on a file.
pub open spec fn is_command(a: Seq<char>) -> bool {
    a == "check"@ || a == "build"@ || a == "run"@ || a == "test"@
}

/// The mathematical form of the command line's request.
pub enum CliV {
    Version,
    Help,
    UnknownCommand(Seq<char>),
    MissingPath(Seq<char>),
    Run(Seq<char>, Seq<char>),
}

/// What the arguments (the program's name first) ask for; the command is `check`
/// when none is given.
pub open spec fn cli_spec(args: Seq<Seq<char>>) -> CliV {
    if args.len() == 2 && (args[1] == "--version"@ || args[1] == "-V"@) {
        CliV::Version
    } else if args.len() == 2 && is_help(args[1]) {
        CliV::Help
    } else {
        let command = if args.len() > 1 {
            args[1]
        } else {
            "check"@
        };
        if is_help(command) {
            CliV::Help
        } else if !is_command(command) {
            CliV::UnknownCommand(command)
        } else if args.len() > 2 {
            CliV::Run(command, args[2])
        } else {
            CliV::MissingPath(command)
        }
    }
}

/// The mathematical form of a request.
pub open spec fn cli_view(a: CliAction) -> CliV {
    match a {
        CliAction::Version => CliV::Version,
        CliAction::Help => CliV::Help,
        CliAction::UnknownCommand(c) => CliV::UnknownCommand(c@),
        CliAction::MissingPath(c) => CliV::MissingPath(c@),
        CliAction::Run { command, path } => CliV::Run(command@, path@),
    }
}

fn help_word(a: &str) -> (r: bool)
    ensures
        r == is_help(a@),
{
    same_text(a, "help") || same_text(a, "--help") || same_text(a, "-h")
}

/// What the command line (the program's name first) asks for.
pub fn cli_action(args: &Vec<String>) -> (r: CliAction)
    ensures
        cli_view(r) == cli_spec(strs_view(args@)),
{
    let ghost a = strs_view(args@);
    if args.len() == 2 && (same_text(args[1].as_str(), "--version") || same_text(args[1].as_str(), "-V")) {
        return CliAction::Version;
    }
    if args.len() == 2 && help_word(args[1].as_str()) {
        return CliAction::Help;
    }
    let command: String = if args.len() > 1 {
        args[1].clone()
    } else {
        String::from_str("check")
    };
    let c = command.as_str();
    if help_word(c) {
        return CliAction::Help;
    }
    if !(same_text(c, "check") || same_text(c, "build") || same_text(c, "run") || same_text(c, "test")) {
        return CliAction::UnknownCommand(command);
    }
    if args.len() > 2 {
        CliAction::Run { command, path: args[2].clone() }
    } else {
        CliAction::MissingPath(command)
    }
}

/// Whether a command may not build for this target: `run` and `test` execute what
/// they build, so they only take the host's target.
pub fn needs_host_target(command: &str, target: &str, host_target: &str) -> (r: bool)
    ensures
        r == ((command@ == "run"@ || command@ == "test"@) && target@ != host_target@),
{
    (same_text(command, "run") || same_text(command, "test")) && !same_text(target, host_target)
}


// ---------------------------------------------------------------------------
// Tool chain layouts.
// ---------------------------------------------------------------------------

/// Where a tool chain keeps what the driver needs, each as path components below
/// its root.
pub struct SdkPaths {
    pub lld: Vec<String>,
    pub lib: Vec<String>,
    pub builtins: Vec<String>,
    pub clang: Vec<String>,
}

/// The components of a path, as text.
pub open spec fn parts(v: Vec<String>) -> Seq<Seq<char>> {
    strs_view(v@)
}

/// The file name of an executable on a host (see `host_exe_name`).
pub open spec fn exe_name(basename: Seq<char>, host_os: Seq<char>) -> Seq<char> {
    if host_os == "windows"@ {
        basename + ".exe"@
    } else {
        basename
    }
}

/// The layout of a tool chain for a target: the SDK that ships beside the compiler
/// (`mingw` false: libraries and compiler-rt in `lib`), or an llvm-mingw
/// installation (`mingw`: libraries in the architecture's directory, compiler-rt
/// with clang's own libraries).
pub open spec fn sdk_paths_spec(target: Seq<char>, host_os: Seq<char>, mingw: bool) -> (
    Seq<Seq<char>>,
    Seq<Seq<char>>,
    Seq<Seq<char>>,
    Seq<Seq<char>>,
) {
    let arch = arch_spec(target);
    let stem = "libclang_rt.builtins-"@ + arch + ".a"@;
    let arch_dir = if arch == "aarch64"@ {
        "aarch64-w64-mingw32"@
    } else {
        "x86_64-w64-mingw32"@
    };
    (
        seq!["bin"@, exe_name("ld.lld"@, host_os)],
        if mingw {
            seq![arch_dir, "lib"@]
        } else {
            seq!["lib"@]
        },
        if mingw {
            seq!["lib"@, "clang"@, "22"@, "lib"@, "windows"@, stem]
        } else {
            seq!["lib"@, stem]
        },
        seq!["bin"@, exe_name("clang"@, host_os)],
    )
}

/// The layout of a tool chain for a target (see `sdk_paths_spec`; `host_os` as
/// `std::env::consts::OS` names it).
pub fn sdk_paths(target: &str, host_os: &str, mingw: bool) -> (r: SdkPaths)
    ensures
        (parts(r.lld), parts(r.lib), parts(r.builtins), parts(r.clang)) == sdk_paths_spec(target@, host_os@, mingw),
{
    let arch = arch_of(target);
    let stem = builtins_stem(arch);
    let mut lld: Vec<String> = Vec::new();
    push_string(&mut lld, "bin");
    let l = host_exe_name("ld.lld", host_os);
    push_string(&mut lld, l.as_str());
    let mut lib: Vec<String> = Vec::new();
    let mut builtins: Vec<String> = Vec::new();
    if mingw {
        push_string(&mut lib, mingw_arch_dir(arch));
        push_string(&mut lib, "lib");
        push_string(&mut builtins, "lib");
        push_string(&mut builtins, "clang");
        push_string(&mut builtins, "22");
        push_string(&mut builtins, "lib");
        push_string(&mut builtins, "windows");
        push_string(&mut builtins, stem.as_str());
    } else {
        push_string(&mut lib, "lib");
        push_string(&mut builtins, "lib");
        push_string(&mut builtins, stem.as_str());
    }
    let mut clang: Vec<String> = Vec::new();
    push_string(&mut clang, "bin");
    let c = host_exe_name("clang", host_os);
    push_string(&mut clang, c.as_str());
    let r = SdkPaths { lld, lib, builtins, clang };
    let ghost spec = sdk_paths_spec(target@, host_os@, mingw);
    assert(parts(r.lld) =~= spec.0);
    assert(parts(r.lib) =~= spec.1);
    assert(parts(r.builtins) =~= spec.2);
    assert(parts(r.clang) =~= spec.3);
    r
}


// ---------------------------------------------------------------------------
// Diagnostics.
// ---------------------------------------------------------------------------

/// How the driver prints a diagnostic: the file, the line and column when it has a
/// place, `错误` for errors and `警告` for warnings, and the message.
pub open spec fn diagnostic_text(file: Seq<char>, location: Option<(usize, usize)>, error: bool, message: Seq<char>) -> Seq<char> {
    let severity = if error {
        "错误"@
    } else {
        "警告"@
    };
    file + (match location {
        Some((line, column)) => ":"@ + decimal(line as nat) + ":"@ + decimal(column as nat),
        None => Seq::empty(),
    }) + ": "@ + severity + ": "@ + message
}

/// The line that the driver prints for a diagnostic.
pub fn diagnostic_line(file: &str, location: Option<(usize, usize)>, error: bool, message: &str) -> (r: String)
    ensures
        r@ == diagnostic_text(file@, location, error, message@),
{
    let mut out: Vec<char> = Vec::new();
    push_str(&mut out, file);
    match location {
        Some((line, column)) => {
            push_str(&mut out, ":");
            push_decimal(&mut out, line as u64);
            push_str(&mut out, ":");
            push_decimal(&mut out, column as u64);
        },
        None => {},
    }
    push_str(&mut out, ": ");
    push_str(&mut out, if error {
        "错误"
    } else {
        "警告"
    });
    push_str(&mut out, ": ");
    push_str(&mut out, message);
    assert(out@ =~= diagnostic_text(file@, location, error, message@));
    string_from_chars(&out)
}

// ---------------------------------------------------------------------------
// Laws.
// ---------------------------------------------------------------------------

/// A content hash has exactly `n` digits, each a lower-case hexadecimal digit.
pub proof fn lemma_hash_digits(h: nat, n: nat)
    ensures
        hex_digits(h, n).len() == n,
        forall|i: int|
            0 <= i < n ==> ('0' <= #[trigger] hex_digits(h, n)[i] <= '9') || ('a' <= hex_digits(h, n)[i] <= 'f'),
    decreases n,
{
    if n > 0 {
        lemma_hash_digits(h / 16, (n - 1) as nat);
    }
}

/// A target's tag is as long as the target and holds only ASCII letters, digits and
/// `_`, so it fits in any file name.
pub proof fn lemma_tag_fits_file_names(target: Seq<char>)
    ensures
        tag_of(target).len() == target.len(),
        forall|i: int| 0 <= i < target.len() ==> ascii_alnum(#[trigger] tag_of(target)[i]) || tag_of(target)[i] == '_',
{
}

} // verus!
