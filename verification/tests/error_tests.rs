use dfq::error::{Error, Span};
use dfq::exit_code::ExitCode;

#[test]
fn maps_error_variants_to_exit_codes() {
    assert_eq!(
        ExitCode::from(&Error::query_parse("bad query", None)),
        ExitCode::QueryParse
    );
    assert_eq!(
        ExitCode::from(&Error::dockerfile_parse("bad dockerfile")),
        ExitCode::DockerfileParse
    );
    assert_eq!(
        ExitCode::from(&Error::not_found("ARG.NOPE")),
        ExitCode::NotFound
    );
    assert_eq!(ExitCode::from(&Error::eval("cycle")), ExitCode::Eval);
    assert_eq!(
        ExitCode::from(&Error::io(std::io::Error::from(std::io::ErrorKind::Other))),
        ExitCode::Io
    );
}

#[test]
fn exit_codes_have_distinct_statuses() {
    assert_eq!(ExitCode::Success.as_i32(), 0);
    assert_eq!(ExitCode::QueryParse.as_i32(), 2);
    assert_eq!(ExitCode::DockerfileParse.as_i32(), 3);
    assert_eq!(ExitCode::NotFound.as_i32(), 4);
    assert_eq!(ExitCode::Eval.as_i32(), 5);
    assert_eq!(ExitCode::Io.as_i32(), 6);
    assert_eq!(ExitCode::Usage.as_i32(), 64);
}

#[test]
fn renders_each_error_variant() {
    assert_eq!(
        Error::query_parse("oops", Some(Span::new(3, 4))).render(),
        "query parse error at 3..4: oops"
    );
    assert_eq!(
        Error::query_parse("oops", None).render(),
        "query parse error: oops"
    );
    assert_eq!(
        Error::dockerfile_parse("bad").render(),
        "dockerfile parse error: bad"
    );
    assert_eq!(Error::not_found("ARG.X").render(), "not found: ARG.X");
    assert_eq!(Error::eval("boom").render(), "evaluation error: boom");
    assert_eq!(
        Error::io(std::io::Error::from(std::io::ErrorKind::NotFound)).render(),
        "io error: entity not found"
    );
}
