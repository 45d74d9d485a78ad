use rustc_codegen_cranelift::session::{
    check_session, jit_args, session_aborts, CrateType, Diagnostic, Lto, SessionOptions, Severity,
};

fn options(crate_types: Vec<CrateType>) -> SessionOptions {
    SessionOptions { crate_types, lto: Lto::No, rpath: false, pgo_gen: false, should_run: false }
}

#[test]
fn supported_session_has_no_diagnostics() {
    let diagnostics =
        check_session(&options(vec![CrateType::Rlib, CrateType::Dylib, CrateType::Executable]));
    assert!(diagnostics.is_empty());
    assert!(!session_aborts(&diagnostics));
}

#[test]
fn every_unsupported_request_is_reported_in_order() {
    let diagnostics = check_session(&SessionOptions {
        crate_types: vec![CrateType::Staticlib, CrateType::Rlib, CrateType::ProcMacro],
        lto: Lto::Fat,
        rpath: true,
        pgo_gen: true,
        should_run: true,
    });
    assert_eq!(
        diagnostics,
        vec![
            Diagnostic::UnsupportedOutputType(CrateType::Staticlib),
            Diagnostic::UnsupportedOutputType(CrateType::ProcMacro),
            Diagnostic::LtoUnsupported,
            Diagnostic::RpathUnsupported,
            Diagnostic::PgoUnsupported,
            Diagnostic::JitNeedsExecutable,
        ]
    );
    assert!(session_aborts(&diagnostics));
}

#[test]
fn lto_alone_is_a_warning() {
    for lto in [Lto::Thin, Lto::ThinLocal, Lto::Fat] {
        let mut o = options(vec![CrateType::Executable]);
        o.lto = lto;
        o.should_run = true;
        let diagnostics = check_session(&o);
        assert_eq!(diagnostics, vec![Diagnostic::LtoUnsupported]);
        assert_eq!(diagnostics[0].severity(), Severity::Warning);
        assert!(!session_aborts(&diagnostics));
    }
}

#[test]
fn running_a_library_is_an_error() {
    let mut o = options(vec![CrateType::Rlib]);
    o.should_run = true;
    let diagnostics = check_session(&o);
    assert_eq!(diagnostics, vec![Diagnostic::JitNeedsExecutable]);
    assert_eq!(diagnostics[0].severity(), Severity::Error);
    assert!(session_aborts(&diagnostics));
}

#[test]
fn messages_name_the_request() {
    assert_eq!(
        Diagnostic::UnsupportedOutputType(CrateType::Cdylib).message(),
        "Rustc codegen cranelift doesn't support output type cdylib"
    );
    assert_eq!(
        Diagnostic::UnsupportedOutputType(CrateType::ProcMacro).message(),
        "Rustc codegen cranelift doesn't support output type proc-macro"
    );
    assert_eq!(
        Diagnostic::UnsupportedOutputType(CrateType::Staticlib).message(),
        "Rustc codegen cranelift doesn't support output type staticlib"
    );
    assert_eq!(
        Diagnostic::LtoUnsupported.message(),
        "Rustc codegen cranelift doesn't support lto"
    );
    assert_eq!(Diagnostic::RpathUnsupported.message(), "rpath is not yet supported");
    assert_eq!(Diagnostic::PgoUnsupported.message(), "pgo is not supported");
    assert_eq!(
        Diagnostic::JitNeedsExecutable.message(),
        "Can't JIT run non executable (SHOULD_RUN env var is set)"
    );
}

#[test]
fn jit_args_split_on_spaces() {
    assert_eq!(jit_args("a bc d", "prog"), vec!["a", "bc", "d", "prog"]);
    assert_eq!(jit_args("", "prog"), vec!["", "prog"]);
    assert_eq!(jit_args(" ", "prog"), vec!["", "", "prog"]);
    assert_eq!(jit_args("a  b ", "prog"), vec!["a", "", "b", "", "prog"]);
    assert_eq!(jit_args("één twee", "p"), vec!["één", "twee", "p"]);
    let expected: Vec<String> =
        "x y  z".split(" ").map(String::from).chain(Some("n".to_string())).collect();
    assert_eq!(jit_args("x y  z", "n"), expected);
}
