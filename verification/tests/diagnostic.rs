use vhdl_lang::diagnostic::as_fatal;
use vhdl_lang::diagnostic::AnalysisError;
use vhdl_lang::diagnostic::Diagnostic;
use vhdl_lang::diagnostic::EvalError;
use vhdl_lang::diagnostic::Message;
use vhdl_lang::syntax::SrcPos;

fn pos(n: u64) -> SrcPos {
    SrcPos { source: 1, start: n, end: n + 1 }
}

#[test]
fn error_and_related_positions() {
    let mut d = Diagnostic::error(&pos(1), Message::Text("oops".to_string()));
    assert_eq!(d.pos, pos(1));
    assert!(d.related.is_empty());
    d.add_related(&pos(2), "here".to_string());
    assert_eq!(d.related, vec![(pos(2), "here".to_string())]);
    assert!(matches!(d.message, Message::Text(ref t) if t == "oops"));
}

#[test]
fn into_non_fatal_gives_the_diagnostic() {
    let d = Diagnostic::error(&pos(1), Message::Text("x".to_string()));
    match AnalysisError::NotFatal(d).into_non_fatal() {
        Ok(d) => assert_eq!(d.pos, pos(1)),
        Err(e) => panic!("unexpected {:?}", e),
    }
    assert!(matches!(AnalysisError::Fatal.into_non_fatal(), Err(EvalError::FatalError)));
}

#[test]
fn as_fatal_passes_on_only_fatal_errors() {
    assert_eq!(as_fatal(Ok::<u8, EvalError>(3)), Ok(Some(3)));
    assert_eq!(as_fatal(Err::<u8, EvalError>(EvalError::Unknown)), Ok(None));
    assert_eq!(as_fatal(Err::<u8, EvalError>(EvalError::FatalError)), Err(EvalError::FatalError));
}
