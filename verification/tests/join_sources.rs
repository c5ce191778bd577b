use mesh_llm::join_sources::{
    default_join_token_file_candidate, file_backed_join_tokens, join_token_file_contents,
    join_token_files, push_unique, read_join_token_file, resolve_invite_token_sources,
    validate_join_token_sources, JoinTokenFileRead, JoinTokenPath, JoinTokenSources,
    DEFAULT_JOIN_TOKEN_FILE_NAME, MESH_LLM_JOIN_ENV,
};

const TEMP_DIR: &str = "/tmp/mesh-llm-test";

fn path(name: &str) -> JoinTokenPath {
    let display = format!("{TEMP_DIR}/{name}");
    JoinTokenPath {
        components: display.split('/').filter(|c| !c.is_empty()).map(|c| c.to_string()).collect(),
        display,
    }
}

fn token_file(name: &str, contents: &str) -> JoinTokenFileRead {
    JoinTokenFileRead { path: path(name), contents: Ok(contents.to_string()) }
}

fn missing_file(name: &str) -> JoinTokenFileRead {
    JoinTokenFileRead {
        path: path(name),
        contents: Err("No such file or directory (os error 2)".to_string()),
    }
}

/// Reads the merged file list from an in-memory directory listing, as the
/// runtime reads it from disk.
fn read_files(files: &[JoinTokenPath], directory: &[(&str, &str)]) -> Vec<JoinTokenFileRead> {
    files
        .iter()
        .map(|p| {
            let contents = directory
                .iter()
                .find(|(name, _)| path(name).display == p.display)
                .map(|(_, text)| text.to_string())
                .ok_or_else(|| "No such file or directory (os error 2)".to_string());
            JoinTokenFileRead {
                path: JoinTokenPath { display: p.display.clone(), components: p.components.clone() },
                contents,
            }
        })
        .collect()
}

/// The default-file rule and the file merge, as `resolve_invite_tokens`
/// applies them before resolving.
fn resolve_with_default(
    join_files: Vec<JoinTokenPath>,
    directory: &[(&str, &str)],
) -> mesh_llm::join_sources::ResolvedJoinTokens {
    let default = path(DEFAULT_JOIN_TOKEN_FILE_NAME);
    let default_exists = directory.iter().any(|(name, _)| *name == DEFAULT_JOIN_TOKEN_FILE_NAME);
    let mut environment_files = Vec::new();
    if let Some(candidate) =
        default_join_token_file_candidate(&join_files, &environment_files, Some(default), default_exists)
    {
        environment_files.push(candidate);
    }
    let files = join_token_files(&join_files, &environment_files);
    resolve_invite_token_sources(&vec![], None, &read_files(&files, directory))
}

#[test]
fn read_join_token_file_trims_surrounding_whitespace() {
    let read = token_file("invite.token", "  signed-token\n");

    assert_eq!(
        read_join_token_file(&read.path, &read.contents).expect("token should read"),
        "signed-token"
    );
}

#[test]
fn read_join_token_file_rejects_empty_files() {
    let read = token_file("invite.token", "\n  \n");

    let error = read_join_token_file(&read.path, &read.contents).expect_err("empty token file must be rejected");
    assert!(error.contains("is empty"), "{error}");
    assert!(error.contains(&read.path.display), "{error}");
}

#[test]
fn read_join_token_file_reports_unreadable_files_by_path() {
    let read = missing_file("missing.token");

    let error = read_join_token_file(&read.path, &read.contents).expect_err("missing file must be rejected");
    assert_eq!(
        error,
        format!(
            "cannot read join token file {TEMP_DIR}/missing.token: No such file or directory (os error 2); \
             write the invite token to that file, point MESH_LLM_JOIN_FILE / --join-file somewhere else, or unset it"
        )
    );
}

#[test]
fn read_join_token_file_keeps_inner_characters() {
    let read = token_file("invite.token", "\tabc#def ghi\r\n");

    assert_eq!(read_join_token_file(&read.path, &read.contents), Ok("abc#def ghi".to_string()));
}

#[test]
fn resolve_invite_token_sources_orders_and_deduplicates_every_source() {
    let flag_file = token_file("flag.token", "file-token\n");
    let environment_file = token_file("env.token", "env-file-token\n");

    let resolved = resolve_invite_token_sources(
        &vec!["argv-token".to_string(), "file-token".to_string()],
        Some("inline-token"),
        &vec![flag_file, environment_file],
    );

    assert!(resolved.errors.is_empty(), "{:?}", resolved.errors);
    assert_eq!(resolved.tokens, ["argv-token", "file-token", "inline-token", "env-file-token",]);
    assert_eq!(resolved.file_tokens, ["file-token", "env-file-token"]);
}

#[test]
fn resolve_invite_token_sources_reads_a_shared_path_once() {
    let shared = path("shared.token");
    let files = join_token_files(
        &vec![JoinTokenPath { display: shared.display.clone(), components: shared.components.clone() }],
        &vec![JoinTokenPath { display: shared.display.clone(), components: shared.components.clone() }],
    );
    assert_eq!(files.len(), 1);

    let resolved = resolve_invite_token_sources(
        &vec![],
        None,
        &read_files(&files, &[("shared.token", "shared-token\n")]),
    );

    assert!(resolved.errors.is_empty(), "{:?}", resolved.errors);
    assert_eq!(resolved.tokens, ["shared-token"]);
    assert_eq!(resolved.file_tokens, ["shared-token"]);
}

#[test]
fn resolve_invite_token_sources_reports_every_unusable_file() {
    let missing = missing_file("missing.token");
    let empty = token_file("empty.token", "");
    let missing_display = missing.path.display.clone();
    let empty_display = empty.path.display.clone();

    let resolved = resolve_invite_token_sources(&vec!["argv-token".to_string()], None, &vec![missing, empty]);

    assert_eq!(resolved.tokens, ["argv-token"]);
    assert_eq!(resolved.errors.len(), 2, "{:?}", resolved.errors);
    assert!(resolved.errors[0].contains(&missing_display), "{:?}", resolved.errors);
    assert!(resolved.errors[1].contains(&empty_display), "{:?}", resolved.errors);
}

#[test]
fn resolve_invite_token_sources_rejects_a_set_but_blank_inline_env() {
    let resolved = resolve_invite_token_sources(&vec![], Some("   "), &vec![]);

    assert!(
        resolved.tokens.is_empty(),
        "a blank MESH_LLM_JOIN carries no token: {:?}",
        resolved.tokens
    );
    assert_eq!(resolved.errors.len(), 1, "{:?}", resolved.errors);
    assert!(resolved.errors[0].contains(MESH_LLM_JOIN_ENV), "{:?}", resolved.errors);
}

#[test]
fn resolve_invite_token_sources_treats_an_unset_inline_env_as_no_source() {
    let resolved = resolve_invite_token_sources(&vec!["argv-token".to_string()], None, &vec![]);

    assert_eq!(resolved.tokens, ["argv-token"]);
    assert!(resolved.errors.is_empty(), "{:?}", resolved.errors);
}

#[test]
fn resolve_invite_tokens_uses_the_default_file_beside_the_config() {
    let resolved = resolve_with_default(vec![], &[(DEFAULT_JOIN_TOKEN_FILE_NAME, "default-token\n")]);

    assert!(resolved.errors.is_empty(), "{:?}", resolved.errors);
    assert_eq!(resolved.tokens, ["default-token"]);
    assert_eq!(
        resolved.file_tokens,
        ["default-token"],
        "the default file is file-backed, so its token must stay rotatable"
    );
}

#[test]
fn resolve_invite_tokens_ignores_an_absent_default_file() {
    let resolved = resolve_with_default(vec![], &[]);

    assert!(resolved.tokens.is_empty(), "an absent default file is not a source: {:?}", resolved.tokens);
    assert!(resolved.errors.is_empty(), "an absent default file is not an error: {:?}", resolved.errors);
}

#[test]
fn resolve_invite_tokens_reports_a_present_but_blank_default_file() {
    let resolved = resolve_with_default(vec![], &[(DEFAULT_JOIN_TOKEN_FILE_NAME, "   \n")]);

    assert!(resolved.tokens.is_empty(), "a blank default file carries no token: {:?}", resolved.tokens);
    assert_eq!(resolved.errors.len(), 1, "{:?}", resolved.errors);
    assert!(resolved.errors[0].contains("is empty"), "{:?}", resolved.errors);
}

#[test]
fn resolve_invite_tokens_prefers_an_explicit_file_over_the_default() {
    let resolved = resolve_with_default(
        vec![path("explicit.token")],
        &[("explicit.token", "explicit-token\n"), (DEFAULT_JOIN_TOKEN_FILE_NAME, "default-token\n")],
    );

    assert!(resolved.errors.is_empty(), "{:?}", resolved.errors);
    assert_eq!(resolved.tokens, ["explicit-token"]);
}

#[test]
fn validate_join_token_sources_leaves_options_join_as_literals() {
    let sources = JoinTokenSources {
        literals: vec![],
        inline_env: None,
        file_reads: vec![token_file("invite.token", "signed-token\n")],
    };

    validate_join_token_sources(&sources).expect("token file should resolve");

    assert!(
        sources.literals.is_empty(),
        "a file-derived token must never be folded into options.join: {:?}",
        sources.literals
    );
    assert_eq!(file_backed_join_tokens(&sources), ["signed-token"]);
}

#[test]
fn validate_join_token_sources_fails_fast_on_an_unreadable_file() {
    let missing = missing_file("missing.token");
    let missing_display = missing.path.display.clone();
    let sources = JoinTokenSources {
        literals: vec!["argv-token".to_string()],
        inline_env: None,
        file_reads: vec![missing],
    };

    let error = validate_join_token_sources(&sources)
        .expect_err("an explicitly configured unreadable token file must fail startup");

    assert!(error.contains(&missing_display), "{error:#}");
    assert_eq!(sources.literals, ["argv-token"], "validation must not rewrite the literal token set");
}

#[test]
fn validate_join_token_sources_reports_the_blank_inline_variable_first() {
    let sources = JoinTokenSources {
        literals: vec![],
        inline_env: Some(String::new()),
        file_reads: vec![missing_file("missing.token")],
    };

    let error = validate_join_token_sources(&sources).expect_err("blank inline token must fail startup");

    assert_eq!(error, "MESH_LLM_JOIN is set but empty; set it to the invite token or unset it");
}

#[test]
fn push_unique_trims_and_skips_blanks_and_repeats() {
    let mut tokens = vec!["a".to_string()];
    push_unique(&mut tokens, "  b \n");
    push_unique(&mut tokens, "a");
    push_unique(&mut tokens, " \t ");
    push_unique(&mut tokens, "b");

    assert_eq!(tokens, ["a", "b"]);
}

#[test]
fn default_file_is_consulted_only_without_named_files() {
    let named = vec![path("flag.token")];
    assert!(default_join_token_file_candidate(&named, &vec![], Some(path("invite.token")), true).is_none());
    assert!(default_join_token_file_candidate(&vec![], &named, Some(path("invite.token")), true).is_none());
    assert!(default_join_token_file_candidate(&vec![], &vec![], Some(path("invite.token")), false).is_none());
    let candidate = default_join_token_file_candidate(&vec![], &vec![], Some(path("invite.token")), true)
        .expect("existing default file");
    assert_eq!(candidate.display, format!("{TEMP_DIR}/invite.token"));
}

#[test]
fn join_token_files_keep_every_explicit_path_and_add_new_environment_paths() {
    let files = join_token_files(
        &vec![path("a.token"), path("a.token")],
        &vec![path("b.token"), path("a.token"), path("b.token")],
    );

    let names: Vec<String> = files.iter().map(|p| p.display.clone()).collect();
    assert_eq!(
        names,
        vec![
            format!("{TEMP_DIR}/a.token"),
            format!("{TEMP_DIR}/a.token"),
            format!("{TEMP_DIR}/b.token")
        ]
    );
}

#[test]
fn remembered_token_file_holds_the_trimmed_token_and_a_newline() {
    assert_eq!(join_token_file_contents("  remembered-token "), Ok("remembered-token\n".to_string()));
    assert_eq!(
        join_token_file_contents(" \n "),
        Err("cannot persist an empty invite token".to_string())
    );

    let contents = join_token_file_contents("remembered-token").expect("token should persist");
    let read = JoinTokenFileRead { path: path("invite.token"), contents: Ok(contents) };
    assert_eq!(read_join_token_file(&read.path, &read.contents), Ok("remembered-token".to_string()));
}

#[test]
fn every_resolved_token_is_a_trimmed_source() {
    let resolved = resolve_invite_token_sources(
        &vec!["  argv-token ".to_string(), "\t".to_string()],
        Some(" inline-token\n"),
        &vec![token_file("a.token", "\n file-token \n"), missing_file("b.token"), token_file("c.token", "   ")],
    );

    assert_eq!(resolved.tokens, ["argv-token", "inline-token", "file-token"]);
    assert_eq!(resolved.file_tokens, ["file-token"]);
}
