//! What is settled before code generation begins: which requests of a
//! session this code generator cannot serve, and the arguments of a program
//! that is run in place.

use vstd::prelude::*;
use vstd::string::StringExecFns;

verus! {

/// The kind of output that a session asks for.
#[derive(Clone, Copy, Debug, PartialEq, Eq, Structural)]
pub enum CrateType {
    Executable,
    Dylib,
    Rlib,
    Staticlib,
    Cdylib,
    ProcMacro,
}

/// The link-time optimization that a session asks for.
#[derive(Clone, Copy, Debug, PartialEq, Eq, Structural)]
pub enum Lto {
    No,
    Thin,
    ThinLocal,
    Fat,
}

/// The requests of a session that bear on code generation.
#[derive(Debug, PartialEq, Eq)]
pub struct SessionOptions {
    pub crate_types: Vec<CrateType>,
    pub lto: Lto,
    pub rpath: bool,
    pub pgo_gen: bool,
    /// The program is to be run in place once its code is generated.
    pub should_run: bool,
}

/// The requests of a session as the contracts see them.
pub struct SessionOptionsView {
    pub crate_types: Seq<CrateType>,
    pub lto: Lto,
    pub rpath: bool,
    pub pgo_gen: bool,
    pub should_run: bool,
}

impl View for SessionOptions {
    type V = SessionOptionsView;

    open spec fn view(&self) -> SessionOptionsView {
        SessionOptionsView {
            crate_types: self.crate_types@,
            lto: self.lto,
            rpath: self.rpath,
            pgo_gen: self.pgo_gen,
            should_run: self.should_run,
        }
    }
}

/// A request that cannot be served.
#[derive(Clone, Copy, Debug, PartialEq, Eq, Structural)]
pub enum Diagnostic {
    /// Output of this kind cannot be produced.
    UnsupportedOutputType(CrateType),
    /// Link-time optimization is not done; the session goes on without it.
    LtoUnsupported,
    /// No rpath is set.
    RpathUnsupported,
    /// No profile is generated.
    PgoUnsupported,
    /// Only an executable can be run in place.
    JitNeedsExecutable,
}

/// How much a diagnostic weighs.
#[derive(Clone, Copy, Debug, PartialEq, Eq, Structural)]
pub enum Severity {
    Warning,
    Error,
}

/// This code generator produces rlibs, dylibs and executables.
pub open spec fn supported_output(kind: CrateType) -> bool {
    kind is Rlib || kind is Dylib || kind is Executable
}

/// One diagnostic for each requested kind of output that cannot be
/// produced, in the order of the requests.
pub open spec fn output_diagnostics(kinds: Seq<CrateType>) -> Seq<Diagnostic>
    decreases kinds.len(),
{
    if kinds.len() == 0 {
        Seq::empty()
    } else {
        let rest = output_diagnostics(kinds.drop_last());
        if supported_output(kinds.last()) {
            rest
        } else {
            rest.push(Diagnostic::UnsupportedOutputType(kinds.last()))
        }
    }
}

/// `diagnostic` where `raised` holds, nothing else.
pub open spec fn when(raised: bool, diagnostic: Diagnostic) -> Seq<Diagnostic> {
    if raised {
        seq![diagnostic]
    } else {
        Seq::empty()
    }
}

/// The diagnostics of a session: the kinds of output that cannot be
/// produced, then link-time optimization, rpath and profile generation
/// where they were asked for, then a program that is to be run in place
/// without being an executable.
pub open spec fn session_diagnostics(options: SessionOptionsView) -> Seq<Diagnostic> {
    output_diagnostics(options.crate_types) + when(
        !(options.lto is No),
        Diagnostic::LtoUnsupported,
    ) + when(options.rpath, Diagnostic::RpathUnsupported) + when(
        options.pgo_gen,
        Diagnostic::PgoUnsupported,
    ) + when(
        options.should_run && !options.crate_types.contains(CrateType::Executable),
        Diagnostic::JitNeedsExecutable,
    )
}

/// Only the lack of link-time optimization is a warning.
pub open spec fn severity_of(diagnostic: Diagnostic) -> Severity {
    match diagnostic {
        Diagnostic::LtoUnsupported => Severity::Warning,
        _ => Severity::Error,
    }
}

/// One of the diagnostics is an error.
pub open spec fn has_error(diagnostics: Seq<Diagnostic>) -> bool {
    exists|i: int| 0 <= i < diagnostics.len() && severity_of(#[trigger] diagnostics[i]) is Error
}

/// The name under which a kind of output is reported.
pub open spec fn crate_type_name(kind: CrateType) -> Seq<char> {
    match kind {
        CrateType::Executable => "bin"@,
        CrateType::Dylib => "dylib"@,
        CrateType::Rlib => "rlib"@,
        CrateType::Staticlib => "staticlib"@,
        CrateType::Cdylib => "cdylib"@,
        CrateType::ProcMacro => "proc-macro"@,
    }
}

/// The text of a diagnostic.
pub open spec fn message_of(diagnostic: Diagnostic) -> Seq<char> {
    match diagnostic {
        Diagnostic::UnsupportedOutputType(kind) => "Rustc codegen cranelift doesn't support output type "@
            + crate_type_name(kind),
        Diagnostic::LtoUnsupported => "Rustc codegen cranelift doesn't support lto"@,
        Diagnostic::RpathUnsupported => "rpath is not yet supported"@,
        Diagnostic::PgoUnsupported => "pgo is not supported"@,
        Diagnostic::JitNeedsExecutable => "Can't JIT run non executable (SHOULD_RUN env var is set)"@,
    }
}

/// The pieces of `text` between its spaces. A text without a space is one
/// piece, the empty text too; every space begins a new piece, so that two
/// spaces in a row hold an empty piece between them.
pub open spec fn split_on_space(text: Seq<char>) -> Seq<Seq<char>>
    decreases text.len(),
{
    if text.len() == 0 {
        seq![Seq::empty()]
    } else {
        let pieces = split_on_space(text.drop_last());
        if text.last() == ' ' {
            pieces.push(Seq::empty())
        } else {
            pieces.drop_last().push(pieces.last().push(text.last()))
        }
    }
}

/// The texts of `strings`.
pub open spec fn texts(strings: Seq<String>) -> Seq<Seq<char>> {
    Seq::new(strings.len(), |i: int| strings[i]@)
}

/// The arguments of a program that is run in place: the pieces of `args`
/// between its spaces, then the name of the program.
pub open spec fn arguments(args: Seq<char>, crate_name: Seq<char>) -> Seq<Seq<char>> {
    split_on_space(args).push(crate_name)
}

impl Diagnostic {
    /// How much the diagnostic weighs.
    pub fn severity(&self) -> (severity: Severity)
        ensures
            severity == severity_of(*self),
    {
        match self {
            Diagnostic::LtoUnsupported => Severity::Warning,
            _ => Severity::Error,
        }
    }

    /// The text of the diagnostic.
    pub fn message(&self) -> (text: String)
        ensures
            text@ == message_of(*self),
    {
        match self {
            Diagnostic::UnsupportedOutputType(kind) => {
                let name = match kind {
                    CrateType::Executable => "bin",
                    CrateType::Dylib => "dylib",
                    CrateType::Rlib => "rlib",
                    CrateType::Staticlib => "staticlib",
                    CrateType::Cdylib => "cdylib",
                    CrateType::ProcMacro => "proc-macro",
                };
                "Rustc codegen cranelift doesn't support output type ".to_owned().concat(name)
            },
            Diagnostic::LtoUnsupported => "Rustc codegen cranelift doesn't support lto".to_owned(),
            Diagnostic::RpathUnsupported => "rpath is not yet supported".to_owned(),
            Diagnostic::PgoUnsupported => "pgo is not supported".to_owned(),
            Diagnostic::JitNeedsExecutable => "Can't JIT run non executable (SHOULD_RUN env var is set)".to_owned(),
        }
    }
}

/// Whether `kinds` holds `kind`.
fn holds_kind(kinds: &Vec<CrateType>, kind: CrateType) -> (found: bool)
    ensures
        found == kinds@.contains(kind),
{
    let mut i: usize = 0;
    while i < kinds.len()
        invariant
            i <= kinds.len(),
            forall|k: int| 0 <= k < i ==> kinds@[k] != kind,
        decreases kinds.len() - i,
    {
        if kinds[i] == kind {
            return true;
        }
        i = i + 1;
    }
    false
}

/// Checks the requests of a session and returns what cannot be served, in
/// the order in which it is reported.
pub fn check_session(options: &SessionOptions) -> (diagnostics: Vec<Diagnostic>)
    ensures
        diagnostics@ == session_diagnostics(options@),
{
    let mut diagnostics: Vec<Diagnostic> = Vec::new();
    let mut i: usize = 0;
    proof {
        assert(options.crate_types@.take(0) =~= Seq::empty());
    }
    while i < options.crate_types.len()
        invariant
            i <= options.crate_types.len(),
            diagnostics@ == output_diagnostics(options.crate_types@.take(i as int)),
        decreases options.crate_types.len() - i,
    {
        proof {
            assert(options.crate_types@.take(i + 1).drop_last() =~= options.crate_types@.take(
                i as int,
            ));
        }
        match options.crate_types[i] {
            CrateType::Rlib | CrateType::Dylib | CrateType::Executable => {},
            kind => {
                diagnostics.push(Diagnostic::UnsupportedOutputType(kind));
            },
        }
        i = i + 1;
    }
    proof {
        assert(options.crate_types@.take(options.crate_types@.len() as int)
            =~= options.crate_types@);
    }
    let ghost outputs = diagnostics@;
    match options.lto {
        Lto::No => {},
        _ => {
            diagnostics.push(Diagnostic::LtoUnsupported);
        },
    }
    let ghost with_lto = diagnostics@;
    assert(with_lto =~= outputs + when(!(options.lto is No), Diagnostic::LtoUnsupported));
    if options.rpath {
        diagnostics.push(Diagnostic::RpathUnsupported);
    }
    let ghost with_rpath = diagnostics@;
    assert(with_rpath =~= with_lto + when(options.rpath, Diagnostic::RpathUnsupported));
    if options.pgo_gen {
        diagnostics.push(Diagnostic::PgoUnsupported);
    }
    let ghost with_pgo = diagnostics@;
    assert(with_pgo =~= with_rpath + when(options.pgo_gen, Diagnostic::PgoUnsupported));
    if options.should_run && !holds_kind(&options.crate_types, CrateType::Executable) {
        diagnostics.push(Diagnostic::JitNeedsExecutable);
    }
    assert(diagnostics@ =~= with_pgo + when(
        options.should_run && !options.crate_types@.contains(CrateType::Executable),
        Diagnostic::JitNeedsExecutable,
    ));
    diagnostics
}

/// Whether a session with these diagnostics is given up before code
/// generation begins: it is, once one of them is an error.
pub fn session_aborts(diagnostics: &Vec<Diagnostic>) -> (aborts: bool)
    ensures
        aborts == has_error(diagnostics@),
{
    let mut i: usize = 0;
    while i < diagnostics.len()
        invariant
            i <= diagnostics.len(),
            forall|k: int| 0 <= k < i ==> !(severity_of(#[trigger] diagnostics@[k]) is Error),
        decreases diagnostics.len() - i,
    {
        match diagnostics[i].severity() {
            Severity::Error => {
                return true;
            },
            Severity::Warning => {},
        }
        i = i + 1;
    }
    false
}

/// The arguments of a program that is run in place: `args` split on
/// spaces, then the name of the program.
pub fn jit_args(args: &str, crate_name: &str) -> (argv: Vec<String>)
    ensures
        texts(argv@) == arguments(args@, crate_name@),
{
    let mut argv: Vec<String> = Vec::new();
    let len = args.unicode_len();
    let mut start: usize = 0;
    let mut i: usize = 0;
    proof {
        assert(args@.take(0) =~= Seq::empty());
        assert(args@.subrange(0, 0) =~= Seq::empty());
        assert(split_on_space(args@.take(0)) =~= texts(argv@).push(args@.subrange(0, 0)));
    }
    while i < len
        invariant
            start <= i <= len,
            len == args@.len(),
            split_on_space(args@.take(i as int)) == texts(argv@).push(
                args@.subrange(start as int, i as int),
            ),
        decreases len - i,
    {
        let ghost pieces = split_on_space(args@.take(i as int));
        let ghost before = texts(argv@);
        proof {
            assert(args@.take(i + 1).drop_last() =~= args@.take(i as int));
            assert(args@.take(i + 1).last() == args@[i as int]);
            assert(pieces.drop_last() =~= before);
        }
        if args.get_char(i) == ' ' {
            argv.push(args.substring_char(start, i).to_owned());
            start = i + 1;
            proof {
                assert(args@.subrange(start as int, i + 1) =~= Seq::empty());
                assert(texts(argv@) =~= pieces);
            }
        } else {
            proof {
                assert(args@.subrange(start as int, i + 1) =~= args@.subrange(
                    start as int,
                    i as int,
                ).push(args@[i as int]));
            }
        }
        i = i + 1;
    }
    proof {
        assert(args@.take(len as int) =~= args@);
    }
    let ghost before = texts(argv@);
    argv.push(args.substring_char(start, len).to_owned());
    assert(texts(argv@) =~= before.push(args@.subrange(start as int, len as int)));
    let ghost split = texts(argv@);
    argv.push(crate_name.to_owned());
    assert(texts(argv@) =~= split.push(crate_name@));
    argv
}

} // verus!
