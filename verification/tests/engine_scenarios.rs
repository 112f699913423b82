use dfq::eval::{Evaluator, Overrides};
use dfq::parser::parse_dockerfile;
use dfq::query::parse_query;

#[test]
fn re_evaluating_twice_is_bit_identical() {
    let dockerfile = "ARG VERSION=0.5.13\nFROM alpine:${VERSION} AS base\nRUN echo hi\n";
    let model = parse_dockerfile(dockerfile).expect("dockerfile should parse");
    let mut overrides = Overrides::new();
    overrides.insert("EXTRA".to_string(), "x".to_string());
    let evaluator = Evaluator::new(&model, &overrides, false);

    for text in ["STAGE", "FROM[*].RESOLVED", "RUN", "ARG", "RESOLVE(\"a:${VERSION}\")"] {
        let query = parse_query(text).expect("query should parse");
        let first = evaluator.evaluate(&query).expect("query should evaluate");
        let second = evaluator.evaluate(&query).expect("query should evaluate");
        assert_eq!(
            first.value.to_json_string(),
            second.value.to_json_string()
        );
        assert_eq!(
            first.meta.to_value(true).to_json_string(),
            second.meta.to_value(true).to_json_string()
        );
    }
}

#[test]
fn set_is_true_iff_name_resolves() {
    let dockerfile = "ARG HAVE=1\nFROM alpine\n";
    let model = parse_dockerfile(dockerfile).expect("dockerfile should parse");
    let overrides = Overrides::new();
    let evaluator = Evaluator::new(&model, &overrides, false);

    for name in ["HAVE", "MISSING"] {
        let set_query = parse_query(&format!("ARG.{name}.SET")).expect("query should parse");
        let set_result = evaluator
            .evaluate(&set_query)
            .expect("SET should evaluate");
        let name_query = parse_query(&format!("ARG.{name}")).expect("query should parse");
        let name_outcome = evaluator.evaluate(&name_query);
        assert_eq!(
            set_result.value.render_scalar(),
            Some(if name_outcome.is_ok() { "true" } else { "false" }.to_string())
        );
    }
}

#[test]
fn wildcard_missing_paths_fail_when_queried_directly() {
    let dockerfile = "FROM alpine\nFROM busybox\n";
    let model = parse_dockerfile(dockerfile).expect("dockerfile should parse");
    let overrides = Overrides::new();
    let evaluator = Evaluator::new(&model, &overrides, false);

    let query = parse_query("STAGE[*].ARG.NOPE").expect("query should parse");
    let result = evaluator.evaluate(&query).expect("query should evaluate");
    assert_eq!(result.value.to_json_string(), "[null,null]");
    assert_eq!(
        result.meta.missing_paths,
        vec![
            "STAGE[0].ARG.NOPE".to_string(),
            "STAGE[1].ARG.NOPE".to_string()
        ]
    );

    for path in &result.meta.missing_paths {
        let direct = parse_query(path).expect("recorded path should parse");
        let err = evaluator
            .evaluate(&direct)
            .expect_err("recorded path should be absent");
        assert!(matches!(err, dfq::error::Error::NotFound { .. }));
    }
}

#[test]
fn self_referential_stage_arg_is_a_cycle() {
    let dockerfile = "FROM alpine\nARG A=${A}\n";
    let model = parse_dockerfile(dockerfile).expect("dockerfile should parse");
    let overrides = Overrides::new();
    let evaluator = Evaluator::new(&model, &overrides, false);

    let query = parse_query("STAGE[0].ARG.A").expect("query should parse");
    let err = evaluator.evaluate(&query).expect_err("cycle should fail");
    assert!(matches!(err, dfq::error::Error::Eval { .. }));
    assert!(err.render().contains("cycle detected while resolving 'A'"));
}

#[test]
fn bare_and_braced_references_agree() {
    let dockerfile = "ARG VERSION=9\nFROM alpine\n";
    let model = parse_dockerfile(dockerfile).expect("dockerfile should parse");
    let overrides = Overrides::new();
    let evaluator = Evaluator::new(&model, &overrides, false);

    let bare = parse_query("RESOLVE(\"$VERSION\")").expect("query should parse");
    let braced = parse_query("RESOLVE(\"${VERSION}\")").expect("query should parse");
    let bare_result = evaluator.evaluate(&bare).expect("query should evaluate");
    let braced_result = evaluator.evaluate(&braced).expect("query should evaluate");
    assert_eq!(
        bare_result.value.to_json_string(),
        braced_result.value.to_json_string()
    );
    assert_eq!(
        bare_result.meta.to_value(true).to_json_string(),
        braced_result.meta.to_value(true).to_json_string()
    );
}

#[test]
fn global_arg_resolves_into_from_with_and_without_override() {
    let dockerfile = "ARG VERSION=0.5.13\nFROM alpine:${VERSION}\n";
    let model = parse_dockerfile(dockerfile).expect("dockerfile should parse");

    let plain = Overrides::new();
    let evaluator = Evaluator::new(&model, &plain, false);
    let query = parse_query("FROM[0].RESOLVED").expect("query should parse");
    assert_eq!(
        evaluator
            .evaluate(&query)
            .expect("query should evaluate")
            .value
            .render_scalar(),
        Some("alpine:0.5.13".to_string())
    );

    let mut with_override = Overrides::new();
    with_override.insert("VERSION".to_string(), "2.0.0".to_string());
    let overridden = Evaluator::new(&model, &with_override, false);
    assert_eq!(
        overridden
            .evaluate(&query)
            .expect("query should evaluate")
            .value
            .render_scalar(),
        Some("alpine:2.0.0".to_string())
    );
}

#[test]
fn grep_count_and_contains_on_three_runs() {
    let dockerfile = "FROM alpine\nRUN apk add curl\nRUN echo hi\nRUN echo done\n";
    let model = parse_dockerfile(dockerfile).expect("dockerfile should parse");
    let overrides = Overrides::new();
    let evaluator = Evaluator::new(&model, &overrides, false);

    let grep_count = parse_query("RUN.GREP(\"apk\").COUNT").expect("query should parse");
    assert_eq!(
        evaluator
            .evaluate(&grep_count)
            .expect("query should evaluate")
            .value
            .render_scalar(),
        Some("1".to_string())
    );

    let contains = parse_query("RUN.CONTAINS(\"echo\")").expect("query should parse");
    assert_eq!(
        evaluator
            .evaluate(&contains)
            .expect("query should evaluate")
            .value
            .render_scalar(),
        Some("true".to_string())
    );
}

#[test]
fn duplicate_stage_name_is_ambiguous_not_notfound() {
    let dockerfile = "FROM alpine AS dup\nFROM busybox AS dup\n";
    let model = parse_dockerfile(dockerfile).expect("dockerfile should parse");
    let overrides = Overrides::new();
    let evaluator = Evaluator::new(&model, &overrides, false);

    let query = parse_query("STAGE[\"dup\"].NAME").expect("query should parse");
    let err = evaluator.evaluate(&query).expect_err("duplicate name");
    assert!(matches!(err, dfq::error::Error::Eval { .. }));
    assert!(err.render().contains("ambiguous"));
    assert!(err.render().contains("2 matches"));
}

#[test]
fn lenient_resolve_expands_missing_to_empty_and_records_it() {
    let dockerfile = "FROM alpine\n";
    let model = parse_dockerfile(dockerfile).expect("dockerfile should parse");
    let overrides = Overrides::new();

    let lenient = Evaluator::new(&model, &overrides, false);
    let query = parse_query("RESOLVE(\"x:${NOPE}\")").expect("query should parse");
    let result = lenient.evaluate(&query).expect("query should evaluate");
    assert_eq!(result.value.render_scalar(), Some("x:".to_string()));
    assert_eq!(result.meta.missing_vars, vec!["NOPE".to_string()]);
    assert_eq!(result.meta.used_vars, vec!["NOPE".to_string()]);

    let strict = Evaluator::new(&model, &overrides, true);
    let err = strict.evaluate(&query).expect_err("strict mode should fail");
    assert!(matches!(err, dfq::error::Error::Eval { .. }));
    assert!(err.render().contains("missing variable 'NOPE'"));
}

#[test]
fn resolve_rejects_bad_arity_and_non_string() {
    let dockerfile = "FROM alpine\n";
    let model = parse_dockerfile(dockerfile).expect("dockerfile should parse");
    let overrides = Overrides::new();
    let evaluator = Evaluator::new(&model, &overrides, false);

    let two_args = parse_query("RESOLVE(\"a\", \"b\")").expect("query should parse");
    let err = evaluator.evaluate(&two_args).expect_err("bad arity");
    assert!(err.render().contains("RESOLVE requires exactly one argument"));

    let ident_arg = parse_query("RESOLVE(abc)").expect("query should parse");
    let err = evaluator.evaluate(&ident_arg).expect_err("bad argument type");
    assert!(err
        .render()
        .contains("RESOLVE argument must be a string literal"));

    let trailing = parse_query("RESOLVE(\"a\").X").expect("query should parse");
    let err = evaluator.evaluate(&trailing).expect_err("trailing segment");
    assert!(matches!(err, dfq::error::Error::NotFound { .. }));
}

#[test]
fn literal_dollar_passes_through() {
    let dockerfile = "FROM alpine\n";
    let model = parse_dockerfile(dockerfile).expect("dockerfile should parse");
    let overrides = Overrides::new();
    let evaluator = Evaluator::new(&model, &overrides, false);

    let query = parse_query("RESOLVE(\"cost: $5 and $\")").expect("query should parse");
    let result = evaluator.evaluate(&query).expect("query should evaluate");
    assert_eq!(
        result.value.render_scalar(),
        Some("cost: $5 and $".to_string())
    );
}

#[test]
fn shell_style_default_form_is_rejected() {
    let dockerfile = "FROM alpine\n";
    let model = parse_dockerfile(dockerfile).expect("dockerfile should parse");
    let overrides = Overrides::new();
    let evaluator = Evaluator::new(&model, &overrides, false);

    let query = parse_query("RESOLVE(\"${NAME:-default}\")").expect("query should parse");
    let err = evaluator.evaluate(&query).expect_err("unsupported form");
    assert!(err
        .render()
        .contains("unsupported interpolation form '${NAME:-default}'"));
}

#[test]
fn stage_scoped_defaults_chain_recursively() {
    let dockerfile = "ARG BASE=alpine\nFROM ${BASE}\nARG TAG=3.19\nARG REF=img:${TAG}\n";
    let model = parse_dockerfile(dockerfile).expect("dockerfile should parse");
    let overrides = Overrides::new();
    let evaluator = Evaluator::new(&model, &overrides, false);

    let query = parse_query("STAGE[0].RESOLVE(\"${REF}\")").expect("query should parse");
    let result = evaluator.evaluate(&query).expect("query should evaluate");
    assert_eq!(result.value.render_scalar(), Some("img:3.19".to_string()));
    assert_eq!(
        result.meta.used_vars,
        vec!["REF".to_string(), "TAG".to_string()]
    );
}

#[test]
fn empty_run_collection_short_circuits() {
    let dockerfile = "FROM alpine\n";
    let model = parse_dockerfile(dockerfile).expect("dockerfile should parse");
    let overrides = Overrides::new();
    let evaluator = Evaluator::new(&model, &overrides, false);

    let query = parse_query("RUN.WHATEVER").expect("query should parse");
    let result = evaluator.evaluate(&query).expect("empty collection");
    assert_eq!(result.value.to_json_string(), "[]");

    let count = parse_query("RUN.COUNT").expect("query should parse");
    assert_eq!(
        evaluator
            .evaluate(&count)
            .expect("query should evaluate")
            .value
            .render_scalar(),
        Some("0".to_string())
    );
}

#[test]
fn unsupported_run_field_fails_whole_collection() {
    let dockerfile = "FROM alpine\nRUN echo hi\n";
    let model = parse_dockerfile(dockerfile).expect("dockerfile should parse");
    let overrides = Overrides::new();
    let evaluator = Evaluator::new(&model, &overrides, false);

    let query = parse_query("RUN.WHATEVER").expect("query should parse");
    let err = evaluator.evaluate(&query).expect_err("field probe should fail");
    assert!(matches!(err, dfq::error::Error::NotFound { .. }));
}

#[test]
fn run_wildcard_stage_name_degrades_per_entry() {
    let dockerfile = "FROM alpine AS named\nRUN echo a\nFROM busybox\nRUN echo b\n";
    let model = parse_dockerfile(dockerfile).expect("dockerfile should parse");
    let overrides = Overrides::new();
    let evaluator = Evaluator::new(&model, &overrides, false);

    let query = parse_query("RUN[*].STAGE_NAME").expect("query should parse");
    let result = evaluator.evaluate(&query).expect("query should evaluate");
    assert_eq!(result.value.to_json_string(), "[\"named\",null]");
    assert!(result.meta.missing_paths.is_empty());
}
