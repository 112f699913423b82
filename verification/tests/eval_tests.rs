use dfq::eval::{Evaluator, Overrides};
use dfq::parser::parse_dockerfile;
use dfq::query::parse_query;

#[test]
fn resolves_from_with_override() {
    let dockerfile = "ARG VERSION=1.0.0\nFROM alpine:${VERSION}\n";
    let model = parse_dockerfile(dockerfile).expect("dockerfile should parse");
    let mut overrides = Overrides::new();
    overrides.insert("VERSION".to_string(), "2.0.0".to_string());
    let evaluator = Evaluator::new(&model, &overrides, false);

    let query = parse_query("FROM[0].RESOLVED").expect("query should parse");
    let result = evaluator.evaluate(&query).expect("query should evaluate");
    assert_eq!(
        result.value.render_scalar(),
        Some("alpine:2.0.0".to_string())
    );
}

#[test]
fn stage_wildcard_returns_null_for_missing() {
    let dockerfile = "FROM alpine AS a\nFROM alpine AS b\nARG ONLY_B=1\n";
    let model = parse_dockerfile(dockerfile).expect("dockerfile should parse");
    let overrides = Overrides::new();
    let evaluator = Evaluator::new(&model, &overrides, false);

    let query = parse_query("STAGE[*].ARG.DOES_NOT_EXIST").expect("query should parse");
    let result = evaluator.evaluate(&query).expect("query should evaluate");
    let json = result.value.to_json_string();
    assert_eq!(json, "[null,null]");
    assert_eq!(result.meta.missing_paths.len(), 2);
}

#[test]
fn run_queries_work_for_wildcard_and_index() {
    let dockerfile = "FROM alpine AS base\nRUN echo one\nRUN echo two\n";
    let model = parse_dockerfile(dockerfile).expect("dockerfile should parse");
    let overrides = Overrides::new();
    let evaluator = Evaluator::new(&model, &overrides, false);

    let wildcard = parse_query("RUN[*]").expect("query should parse");
    let wildcard_result = evaluator
        .evaluate(&wildcard)
        .expect("query should evaluate");
    assert_eq!(
        wildcard_result.value.to_json_string(),
        "[\"RUN echo one\",\"RUN echo two\"]"
    );

    let indexed = parse_query("RUN[1].COMMAND").expect("query should parse");
    let indexed_result = evaluator.evaluate(&indexed).expect("query should evaluate");
    assert_eq!(
        indexed_result.value.render_scalar(),
        Some("echo two".to_string())
    );
}

#[test]
fn eval_run_directives_filter_and_count() {
    let dockerfile = "FROM alpine\nRUN apk add curl\nRUN echo done\n";
    let model = parse_dockerfile(dockerfile).expect("dockerfile should parse");
    let overrides = Overrides::new();
    let evaluator = Evaluator::new(&model, &overrides, false);

    let grep = parse_query("RUN.GREP(\"apk\")").expect("query should parse");
    let grep_result = evaluator.evaluate(&grep).expect("query should evaluate");
    assert_eq!(grep_result.value.to_json_string(), "[\"RUN apk add curl\"]");

    let grep_count = parse_query("RUN.GREP(\"apk\").COUNT").expect("query should parse");
    let grep_count_result = evaluator
        .evaluate(&grep_count)
        .expect("query should evaluate");
    assert_eq!(
        grep_count_result.value.render_scalar(),
        Some("1".to_string())
    );

    let contains = parse_query("RUN.CONTAINS(\"echo\")").expect("query should parse");
    let contains_result = evaluator
        .evaluate(&contains)
        .expect("query should evaluate");
    assert_eq!(
        contains_result.value.render_scalar(),
        Some("true".to_string())
    );

    let wildcard_grep = parse_query("RUN[*].GREP(\"apk\").COUNT").expect("query should parse");
    let wildcard_grep_result = evaluator
        .evaluate(&wildcard_grep)
        .expect("query should evaluate");
    assert_eq!(
        wildcard_grep_result.value.render_scalar(),
        Some("1".to_string())
    );
}

#[test]
fn arg_root_lists_global_defaults() {
    let dockerfile = "ARG B=2\nARG A=1\nARG C\nFROM alpine\n";
    let model = parse_dockerfile(dockerfile).expect("dockerfile should parse");
    let overrides = Overrides::new();
    let evaluator = Evaluator::new(&model, &overrides, false);

    let query = parse_query("ARG").expect("query should parse");
    let result = evaluator.evaluate(&query).expect("query should evaluate");
    assert_eq!(
        result.value.to_json_string(),
        "{\"A\":\"1\",\"B\":\"2\",\"C\":null}"
    );
}

#[test]
fn arg_name_default_and_set() {
    let dockerfile = "ARG VERSION=1.0\nFROM alpine\n";
    let model = parse_dockerfile(dockerfile).expect("dockerfile should parse");
    let overrides = Overrides::new();
    let evaluator = Evaluator::new(&model, &overrides, false);

    let name = parse_query("ARG.VERSION").expect("query should parse");
    let name_result = evaluator.evaluate(&name).expect("query should evaluate");
    assert_eq!(name_result.value.render_scalar(), Some("1.0".to_string()));

    let default = parse_query("ARG.VERSION.DEFAULT").expect("query should parse");
    let default_result = evaluator.evaluate(&default).expect("query should evaluate");
    assert_eq!(default_result.value.render_scalar(), Some("1.0".to_string()));

    let set = parse_query("ARG.VERSION.SET").expect("query should parse");
    let set_result = evaluator.evaluate(&set).expect("query should evaluate");
    assert_eq!(set_result.value.render_scalar(), Some("true".to_string()));

    let unset = parse_query("ARG.NOPE.SET").expect("query should parse");
    let unset_result = evaluator.evaluate(&unset).expect("query should evaluate");
    assert_eq!(unset_result.value.render_scalar(), Some("false".to_string()));

    let missing = parse_query("ARG.NOPE").expect("query should parse");
    let missing_err = evaluator.evaluate(&missing).expect_err("should be absent");
    assert!(matches!(missing_err, dfq::error::Error::NotFound { .. }));
}

#[test]
fn from_fields_cover_all_kinds() {
    let dockerfile = "FROM alpine:3.19 AS base\nFROM scratch\nFROM base\n";
    let model = parse_dockerfile(dockerfile).expect("dockerfile should parse");
    let overrides = Overrides::new();
    let evaluator = Evaluator::new(&model, &overrides, false);

    let root = parse_query("FROM").expect("query should parse");
    let root_result = evaluator.evaluate(&root).expect("query should evaluate");
    assert_eq!(
        root_result.value.to_json_string(),
        "[\"alpine:3.19\",\"scratch\",\"base\"]"
    );

    let kinds = parse_query("FROM[*].KIND").expect("query should parse");
    let kinds_result = evaluator.evaluate(&kinds).expect("query should evaluate");
    assert_eq!(
        kinds_result.value.to_json_string(),
        "[\"image\",\"scratch\",\"stage\"]"
    );

    let target = parse_query("FROM[2].STAGE").expect("query should parse");
    let target_result = evaluator.evaluate(&target).expect("query should evaluate");
    assert_eq!(target_result.value.render_scalar(), Some("base".to_string()));

    let not_stage = parse_query("FROM[0].STAGE").expect("query should parse");
    let err = evaluator.evaluate(&not_stage).expect_err("image has no stage");
    assert!(matches!(err, dfq::error::Error::NotFound { .. }));

    let keyed = parse_query("FROM[\"base\"]").expect("query should parse");
    let keyed_err = evaluator.evaluate(&keyed).expect_err("no key lookup on FROM");
    assert!(matches!(keyed_err, dfq::error::Error::NotFound { .. }));
}

#[test]
fn run_entry_fields() {
    let dockerfile = "FROM alpine AS base\nRUN echo hi\n";
    let model = parse_dockerfile(dockerfile).expect("dockerfile should parse");
    let overrides = Overrides::new();
    let evaluator = Evaluator::new(&model, &overrides, false);

    let keyword = parse_query("RUN[0].KEYWORD").expect("query should parse");
    assert_eq!(
        evaluator
            .evaluate(&keyword)
            .expect("query should evaluate")
            .value
            .render_scalar(),
        Some("RUN".to_string())
    );

    let stage_name = parse_query("RUN[0].STAGE_NAME").expect("query should parse");
    assert_eq!(
        evaluator
            .evaluate(&stage_name)
            .expect("query should evaluate")
            .value
            .render_scalar(),
        Some("base".to_string())
    );

    let span = parse_query("RUN[0].SPAN").expect("query should parse");
    assert_eq!(
        evaluator
            .evaluate(&span)
            .expect("query should evaluate")
            .value
            .to_json_string(),
        "{\"end\":2,\"start\":2}"
    );

    let index = parse_query("RUN[0].INDEX").expect("query should parse");
    assert_eq!(
        evaluator
            .evaluate(&index)
            .expect("query should evaluate")
            .value
            .render_scalar(),
        Some("0".to_string())
    );

    let out_of_range = parse_query("RUN[5]").expect("query should parse");
    let err = evaluator.evaluate(&out_of_range).expect_err("out of range");
    assert!(matches!(err, dfq::error::Error::NotFound { .. }));
}

#[test]
fn stage_summary_and_instructions() {
    let dockerfile = "FROM alpine AS base\nARG X=1\nRUN echo hi\n";
    let model = parse_dockerfile(dockerfile).expect("dockerfile should parse");
    let overrides = Overrides::new();
    let evaluator = Evaluator::new(&model, &overrides, false);

    let summary = parse_query("STAGE[0]").expect("query should parse");
    let summary_result = evaluator.evaluate(&summary).expect("query should evaluate");
    assert_eq!(
        summary_result.value.to_json_string(),
        "{\"arg\":{\"X\":\"1\"},\"index\":0,\"instructions\":{\"count\":2},\"name\":\"base\",\"parent\":{\"kind\":\"image\",\"raw\":\"alpine\",\"resolved\":\"alpine\"}}"
    );

    let count = parse_query("STAGE[0].INSTRUCTIONS.COUNT").expect("query should parse");
    assert_eq!(
        evaluator
            .evaluate(&count)
            .expect("query should evaluate")
            .value
            .render_scalar(),
        Some("2".to_string())
    );

    let kw = parse_query("STAGE[0].INSTRUCTIONS[1].KEYWORD").expect("query should parse");
    assert_eq!(
        evaluator
            .evaluate(&kw)
            .expect("query should evaluate")
            .value
            .render_scalar(),
        Some("RUN".to_string())
    );

    let name = parse_query("STAGE[\"base\"].NAME").expect("query should parse");
    assert_eq!(
        evaluator
            .evaluate(&name)
            .expect("query should evaluate")
            .value
            .render_scalar(),
        Some("base".to_string())
    );
}

#[test]
fn stage_scoped_arg_prefers_stage_default() {
    let dockerfile = "ARG V=global\nFROM alpine\nARG V=stage\n";
    let model = parse_dockerfile(dockerfile).expect("dockerfile should parse");
    let overrides = Overrides::new();
    let evaluator = Evaluator::new(&model, &overrides, false);

    let stage_arg = parse_query("STAGE[0].ARG.V").expect("query should parse");
    assert_eq!(
        evaluator
            .evaluate(&stage_arg)
            .expect("query should evaluate")
            .value
            .render_scalar(),
        Some("stage".to_string())
    );

    let global_arg = parse_query("ARG.V").expect("query should parse");
    assert_eq!(
        evaluator
            .evaluate(&global_arg)
            .expect("query should evaluate")
            .value
            .render_scalar(),
        Some("global".to_string())
    );
}

#[test]
fn meta_projection_includes_requested_details() {
    let dockerfile = "FROM alpine:${NOPE}\n";
    let model = parse_dockerfile(dockerfile).expect("dockerfile should parse");
    let overrides = Overrides::new();
    let evaluator = Evaluator::new(&model, &overrides, false);

    let query = parse_query("FROM[0].RESOLVED").expect("query should parse");
    let result = evaluator.evaluate(&query).expect("query should evaluate");
    assert_eq!(result.value.render_scalar(), Some("alpine:".to_string()));
    assert_eq!(
        result.meta.to_value(true).to_json_string(),
        "{\"missing_vars\":[\"NOPE\"],\"scope\":\"global\",\"used_vars\":[\"NOPE\"]}"
    );
    assert_eq!(
        result.meta.to_value(false).to_json_string(),
        "{\"scope\":\"global\"}"
    );
}

#[test]
fn unknown_keyword_is_not_found() {
    let dockerfile = "FROM alpine\n";
    let model = parse_dockerfile(dockerfile).expect("dockerfile should parse");
    let overrides = Overrides::new();
    let evaluator = Evaluator::new(&model, &overrides, false);

    let query = parse_query("WHAT.EVER").expect("query should parse");
    let err = evaluator.evaluate(&query).expect_err("unknown keyword");
    assert!(matches!(err, dfq::error::Error::NotFound { .. }));
}

#[test]
fn command_strips_lowercase_run_keyword() {
    let dockerfile = "FROM alpine\nrun   echo spaced\n";
    let model = parse_dockerfile(dockerfile).expect("dockerfile should parse");
    let overrides = Overrides::new();
    let evaluator = Evaluator::new(&model, &overrides, false);

    let command = parse_query("RUN[0].COMMAND").expect("query should parse");
    assert_eq!(
        evaluator
            .evaluate(&command)
            .expect("query should evaluate")
            .value
            .render_scalar(),
        Some("echo spaced".to_string())
    );

    let raw = parse_query("RUN[0].RAW").expect("query should parse");
    assert_eq!(
        evaluator
            .evaluate(&raw)
            .expect("query should evaluate")
            .value
            .render_scalar(),
        Some("run   echo spaced".to_string())
    );
}

#[test]
fn continued_instruction_spans_both_lines() {
    let dockerfile = "FROM alpine\nRUN echo one \\\n    two\n";
    let model = parse_dockerfile(dockerfile).expect("dockerfile should parse");
    let overrides = Overrides::new();
    let evaluator = Evaluator::new(&model, &overrides, false);

    let span = parse_query("RUN[0].SPAN").expect("query should parse");
    assert_eq!(
        evaluator
            .evaluate(&span)
            .expect("query should evaluate")
            .value
            .to_json_string(),
        "{\"end\":3,\"start\":2}"
    );
}
