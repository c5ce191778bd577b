//! Where a private-mesh invite token comes from: `--join` literals, the
//! inline `MESH_LLM_JOIN` variable, and token files named by `--join-file`,
//! `MESH_LLM_JOIN_FILE` or the default `invite.token` beside the config.
//!
//! Reading the environment and the files is the caller's part; this module
//! decides which files are read, what each read yields, and how the tokens
//! are ordered, de-duplicated and reported.

use vstd::prelude::*;
use vstd::string::StringExecFns;
use crate::text::{is_blank, owned, trim_text, trimmed, lemma_trimmed_idempotent, lemma_trimmed_shape, lemma_trimmed_push_white};

verus! {

/// Inline invite token; equivalent to a single `--join <TOKEN>`.
pub const MESH_LLM_JOIN_ENV: &'static str = "MESH_LLM_JOIN";
/// Path to a file holding the invite token; equivalent to `--join-file <PATH>`.
pub const MESH_LLM_JOIN_FILE_ENV: &'static str = "MESH_LLM_JOIN_FILE";
/// Default invite-token filename, resolved beside the config file.
pub const DEFAULT_JOIN_TOKEN_FILE_NAME: &'static str = "invite.token";

/// A token file path: its display form, and its components, by which two
/// paths are compared.
pub struct JoinTokenPath {
    pub display: String,
    pub components: Vec<String>,
}

/// A token file and what reading it gave: its text, or the reason it could
/// not be read.
pub struct JoinTokenFileRead {
    pub path: JoinTokenPath,
    pub contents: Result<String, String>,
}

/// Every invite token to try, the subset that came from files, and one
/// message per unusable source.
pub struct ResolvedJoinTokens {
    pub tokens: Vec<String>,
    pub file_tokens: Vec<String>,
    pub errors: Vec<String>,
}

/// The configured sources as read at one moment: the `--join` literals, the
/// value of `MESH_LLM_JOIN` if set, and every token file with what reading
/// it gave, in the order they are consulted.
pub struct JoinTokenSources {
    pub literals: Vec<String>,
    pub inline_env: Option<String>,
    pub file_reads: Vec<JoinTokenFileRead>,
}

/// Whether two paths name the same file by their components.
pub open spec fn same_path(a: JoinTokenPath, b: JoinTokenPath) -> bool {
    a.components.deep_view() == b.components.deep_view()
}

/// The characters of a read result.
pub open spec fn read_view(r: Result<String, String>) -> Result<Seq<char>, Seq<char>> {
    match r {
        Ok(t) => Ok(t@),
        Err(e) => Err(e@),
    }
}

/// The characters of an optional owned text.
pub open spec fn owned_option(t: Option<String>) -> Option<Seq<char>> {
    match t {
        Some(s) => Some(s@),
        None => None,
    }
}

/// The message for a token file that could not be read.
pub open spec fn unreadable_message(path: Seq<char>, error: Seq<char>) -> Seq<char> {
    "cannot read join token file "@ + path + ": "@ + error
        + "; write the invite token to that file, point MESH_LLM_JOIN_FILE / --join-file somewhere else, or unset it"@
}

/// The message for a token file that holds nothing but white space.
pub open spec fn empty_file_message(path: Seq<char>) -> Seq<char> {
    "join token file "@ + path + " is empty; write the invite token to that file"@
}

/// The message for a set but blank `MESH_LLM_JOIN`.
pub open spec fn blank_inline_message() -> Seq<char> {
    "MESH_LLM_JOIN is set but empty; set it to the invite token or unset it"@
}

/// What a token file yields: its trimmed text, or a message naming the
/// file when it could not be read or holds no token.
pub open spec fn token_file_outcome(path: Seq<char>, contents: Result<Seq<char>, Seq<char>>) -> Result<Seq<char>, Seq<char>> {
    match contents {
        Err(e) => Err(unreadable_message(path, e)),
        Ok(raw) => if trimmed(raw).len() == 0 {
            Err(empty_file_message(path))
        } else {
            Ok(trimmed(raw))
        },
    }
}

/// `tokens` with `token` added, trimmed, unless it is blank or already there.
pub open spec fn with_unique(tokens: Seq<Seq<char>>, token: Seq<char>) -> Seq<Seq<char>> {
    let t = trimmed(token);
    if t.len() == 0 || tokens.contains(t) {
        tokens
    } else {
        tokens.push(t)
    }
}

/// `tokens` with each of `items` added in turn by `with_unique`.
pub open spec fn with_all_unique(tokens: Seq<Seq<char>>, items: Seq<Seq<char>>) -> Seq<Seq<char>>
    decreases items.len(),
{
    if items.len() == 0 {
        tokens
    } else {
        with_unique(with_all_unique(tokens, items.drop_last()), items.last())
    }
}

/// What each file read yields, in order.
pub open spec fn read_outcomes(reads: Seq<JoinTokenFileRead>) -> Seq<Result<Seq<char>, Seq<char>>> {
    reads.map_values(|r: JoinTokenFileRead| token_file_outcome(r.path.display@, read_view(r.contents)))
}

/// The tokens among `outcomes`, in order.
pub open spec fn outcome_tokens(outcomes: Seq<Result<Seq<char>, Seq<char>>>) -> Seq<Seq<char>>
    decreases outcomes.len(),
{
    if outcomes.len() == 0 {
        Seq::empty()
    } else {
        let prev = outcome_tokens(outcomes.drop_last());
        match outcomes.last() {
            Ok(t) => prev.push(t),
            Err(_) => prev,
        }
    }
}

/// The messages among `outcomes`, in order.
pub open spec fn outcome_messages(outcomes: Seq<Result<Seq<char>, Seq<char>>>) -> Seq<Seq<char>>
    decreases outcomes.len(),
{
    if outcomes.len() == 0 {
        Seq::empty()
    } else {
        let prev = outcome_messages(outcomes.drop_last());
        match outcomes.last() {
            Ok(_) => prev,
            Err(m) => prev.push(m),
        }
    }
}

/// The token an inline variable contributes: itself unless unset or blank.
pub open spec fn inline_items(inline: Option<Seq<char>>) -> Seq<Seq<char>> {
    match inline {
        Some(t) => if is_blank(t) {
            Seq::empty()
        } else {
            seq![t]
        },
        None => Seq::empty(),
    }
}

/// The message an inline variable contributes: one when set but blank.
pub open spec fn inline_messages(inline: Option<Seq<char>>) -> Seq<Seq<char>> {
    match inline {
        Some(t) => if is_blank(t) {
            seq![blank_inline_message()]
        } else {
            Seq::empty()
        },
        None => Seq::empty(),
    }
}

/// The tokens from the literals and the inline variable, in that order.
pub open spec fn literal_tokens(literals: Seq<Seq<char>>, inline: Option<Seq<char>>) -> Seq<Seq<char>> {
    with_all_unique(with_all_unique(Seq::empty(), literals), inline_items(inline))
}

/// Every token to try: the literal tokens, then each file token in the
/// order the files were named, without blanks or repeats.
pub open spec fn resolved_tokens(
    literals: Seq<Seq<char>>,
    inline: Option<Seq<char>>,
    reads: Seq<JoinTokenFileRead>,
) -> Seq<Seq<char>> {
    with_all_unique(literal_tokens(literals, inline), outcome_tokens(read_outcomes(reads)))
}

/// The tokens that came from files, in order, without repeats.
pub open spec fn resolved_file_tokens(reads: Seq<JoinTokenFileRead>) -> Seq<Seq<char>> {
    with_all_unique(Seq::empty(), outcome_tokens(read_outcomes(reads)))
}

/// One message per unusable source: a blank inline variable first, then
/// each unusable file in order.
pub open spec fn resolved_errors(inline: Option<Seq<char>>, reads: Seq<JoinTokenFileRead>) -> Seq<Seq<char>> {
    inline_messages(inline) + outcome_messages(read_outcomes(reads))
}

/// Whether `res` resolves the given sources.
pub open spec fn is_resolution(
    res: ResolvedJoinTokens,
    literals: Seq<Seq<char>>,
    inline: Option<Seq<char>>,
    reads: Seq<JoinTokenFileRead>,
) -> bool {
    &&& res.tokens.deep_view() == resolved_tokens(literals, inline, reads)
    &&& res.file_tokens.deep_view() == resolved_file_tokens(reads)
    &&& res.errors.deep_view() == resolved_errors(inline, reads)
}

/// The token files to read: every `--join-file` path in order, then each
/// environment path not already in the list.
pub open spec fn merged_files(join_files: Seq<JoinTokenPath>, environment_files: Seq<JoinTokenPath>) -> Seq<JoinTokenPath>
    decreases environment_files.len(),
{
    if environment_files.len() == 0 {
        join_files
    } else {
        let prev = merged_files(join_files, environment_files.drop_last());
        let e = environment_files.last();
        if exists|k: int| 0 <= k < prev.len() && same_path(#[trigger] prev[k], e) {
            prev
        } else {
            prev.push(e)
        }
    }
}

/// Whether `files` lists the same paths as `model`, with the same display.
pub open spec fn mirrors(files: Seq<JoinTokenPath>, model: Seq<JoinTokenPath>) -> bool {
    &&& files.len() == model.len()
    &&& forall|i: int| 0 <= i < files.len() ==> #[trigger] files[i].display@ == model[i].display@ && same_path(files[i], model[i])
}

/// Whether `a` and `b` name the same file.
pub fn paths_equal(a: &JoinTokenPath, b: &JoinTokenPath) -> (res: bool)
    ensures
        res == same_path(*a, *b),
{
    if a.components.len() != b.components.len() {
        assert(a.components.deep_view().len() != b.components.deep_view().len());
        return false;
    }
    let mut i: usize = 0;
    while i < a.components.len()
        invariant
            a.components.len() == b.components.len(),
            i <= a.components.len(),
            forall|j: int| 0 <= j < i ==> #[trigger] a.components@[j]@ == b.components@[j]@,
        decreases a.components.len() - i,
    {
        if a.components[i] != b.components[i] {
            assert(a.components.deep_view()[i as int] != b.components.deep_view()[i as int]);
            return false;
        }
        i = i + 1;
    }
    assert(a.components.deep_view() =~= b.components.deep_view());
    true
}

/// A copy of `path`.
pub fn copy_path(path: &JoinTokenPath) -> (res: JoinTokenPath)
    ensures
        res.display@ == path.display@,
        res.components.deep_view() == path.components.deep_view(),
{
    let mut components: Vec<String> = Vec::new();
    let mut i: usize = 0;
    while i < path.components.len()
        invariant
            i <= path.components.len(),
            components@.len() == i,
            forall|j: int| 0 <= j < i ==> #[trigger] components@[j]@ == path.components@[j]@,
        decreases path.components.len() - i,
    {
        components.push(path.components[i].clone());
        i = i + 1;
    }
    assert(components.deep_view() =~= path.components.deep_view());
    JoinTokenPath { display: path.display.clone(), components }
}

/// What a token file yields: the trimmed contents, or a message naming the
/// file when it could not be read or holds only white space. The contents
/// are the token and nothing more: a `#` is not a comment and a newline is
/// not a separator.
pub fn read_join_token_file(path: &JoinTokenPath, contents: &Result<String, String>) -> (res: Result<String, String>)
    ensures
        read_view(res) == token_file_outcome(path.display@, read_view(*contents)),
        res is Ok <==> (contents matches Ok(raw) && !is_blank(raw@)),
        res matches Ok(t) ==> contents matches Ok(raw) && t@ == trimmed(raw@),
{
    proof {
        if let Ok(raw) = contents {
            lemma_trimmed_shape(raw@);
        }
    }
    match contents {
        Err(error) => {
            let mut message = owned("cannot read join token file ");
            message.append(path.display.as_str());
            message.append(": ");
            message.append(error.as_str());
            message.append(
                "; write the invite token to that file, point MESH_LLM_JOIN_FILE / --join-file somewhere else, or unset it",
            );
            Err(message)
        },
        Ok(raw) => {
            let token = trim_text(raw.as_str());
            if token.is_empty() {
                let mut message = owned("join token file ");
                message.append(path.display.as_str());
                message.append(" is empty; write the invite token to that file");
                Err(message)
            } else {
                Ok(owned(token))
            }
        },
    }
}

/// Add `token`, trimmed, to `tokens` unless it is blank or already listed.
pub fn push_unique(tokens: &mut Vec<String>, token: &str)
    ensures
        final(tokens).deep_view() == with_unique(old(tokens).deep_view(), token@),
{
    let trimmed_token = trim_text(token);
    if trimmed_token.is_empty() {
        return;
    }
    let candidate = owned(trimmed_token);
    let ghost before = tokens.deep_view();
    let mut i: usize = 0;
    while i < tokens.len()
        invariant
            i <= tokens.len(),
            tokens.deep_view() == before,
            before == old(tokens).deep_view(),
            candidate@ == trimmed(token@),
            forall|j: int| 0 <= j < i ==> #[trigger] tokens@[j]@ != candidate@,
        decreases tokens.len() - i,
    {
        if tokens[i] == candidate {
            assert(before[i as int] == candidate@);
            assert(before.contains(candidate@));
            return;
        }
        i = i + 1;
    }
    assert(!before.contains(candidate@)) by {
        if before.contains(candidate@) {
            let k = choose|k: int| 0 <= k < before.len() && before[k] == candidate@;
            assert(tokens@[k]@ == candidate@);
        }
    }
    tokens.push(candidate);
    assert(tokens.deep_view() =~= before.push(candidate@));
}

/// Resolve every invite token to try from the given sources: the literals,
/// then the inline variable, then each file read in order, dropping blanks
/// and repeats; one message per unusable source (a set but blank inline
/// variable counts as one), so that startup can fail on them and the rejoin
/// loop can report them.
pub fn resolve_invite_token_sources(
    literals: &Vec<String>,
    inline_env: Option<&str>,
    file_reads: &Vec<JoinTokenFileRead>,
) -> (res: ResolvedJoinTokens)
    ensures
        is_resolution(res, literals.deep_view(), crate::tailnet::text_option(inline_env), file_reads@),
{
    let ghost lits = literals.deep_view();
    let ghost inline = crate::tailnet::text_option(inline_env);
    let mut tokens: Vec<String> = Vec::new();
    let mut i: usize = 0;
    while i < literals.len()
        invariant
            i <= literals.len(),
            lits == literals.deep_view(),
            tokens.deep_view() == with_all_unique(Seq::empty(), lits.take(i as int)),
        decreases literals.len() - i,
    {
        assert(lits.take(i + 1).drop_last() == lits.take(i as int));
        push_unique(&mut tokens, literals[i].as_str());
        i = i + 1;
    }
    assert(lits.take(i as int) == lits);
    let mut errors: Vec<String> = Vec::new();
    let ghost from_literals = tokens.deep_view();
    assert(with_all_unique(from_literals, Seq::<Seq<char>>::empty()) == from_literals);
    match inline_env {
        None => {},
        Some(inline_token) => {
            if trim_text(inline_token).is_empty() {
                proof {
                    lemma_trimmed_shape(inline_token@);
                }
                errors.push(owned("MESH_LLM_JOIN is set but empty; set it to the invite token or unset it"));
            } else {
                proof {
                    lemma_trimmed_shape(inline_token@);
                    let one = seq![inline_token@];
                    assert(one.drop_last() =~= Seq::<Seq<char>>::empty());
                    assert(one.last() == inline_token@);
                    assert(inline_items(inline) == one);
                    assert(with_all_unique(from_literals, one) == with_unique(
                        with_all_unique(from_literals, one.drop_last()),
                        inline_token@,
                    ));
                }
                push_unique(&mut tokens, inline_token);
            }
        },
    }
    assert(tokens.deep_view() == literal_tokens(lits, inline));
    assert(errors.deep_view() =~= inline_messages(inline));
    let ghost outcomes = read_outcomes(file_reads@);
    let ghost base = literal_tokens(lits, inline);
    let mut file_tokens: Vec<String> = Vec::new();
    let mut k: usize = 0;
    while k < file_reads.len()
        invariant
            k <= file_reads.len(),
            outcomes == read_outcomes(file_reads@),
            outcomes.len() == file_reads@.len(),
            base == literal_tokens(lits, inline),
            tokens.deep_view() == with_all_unique(base, outcome_tokens(outcomes.take(k as int))),
            file_tokens.deep_view() == with_all_unique(Seq::empty(), outcome_tokens(outcomes.take(k as int))),
            errors.deep_view() == inline_messages(inline) + outcome_messages(outcomes.take(k as int)),
        decreases file_reads.len() - k,
    {
        let read = &file_reads[k];
        let outcome = read_join_token_file(&read.path, &read.contents);
        assert(outcomes.take(k + 1).drop_last() == outcomes.take(k as int));
        assert(outcomes.take(k + 1).last() == read_view(outcome));
        let ghost done = outcome_tokens(outcomes.take(k as int));
        match outcome {
            Ok(token) => {
                assert(outcome_tokens(outcomes.take(k + 1)) == done.push(token@));
                assert(done.push(token@).drop_last() == done);
                push_unique(&mut file_tokens, token.as_str());
                push_unique(&mut tokens, token.as_str());
            },
            Err(message) => {
                let ghost before = errors.deep_view();
                errors.push(message);
                assert(errors.deep_view() =~= before.push(read_view(outcome)->Err_0));
                assert(outcome_tokens(outcomes.take(k + 1)) == done);
            },
        }
        k = k + 1;
    }
    assert(outcomes.take(k as int) == outcomes);
    ResolvedJoinTokens { tokens, file_tokens, errors }
}

/// The token files to read, in order: every `--join-file` path, then each
/// environment-named path that is not already listed.
#[verifier::loop_isolation(false)]
pub fn join_token_files(join_files: &Vec<JoinTokenPath>, environment_files: &Vec<JoinTokenPath>) -> (res: Vec<JoinTokenPath>)
    ensures
        mirrors(res@, merged_files(join_files@, environment_files@)),
{
    let mut files: Vec<JoinTokenPath> = Vec::new();
    let mut i: usize = 0;
    while i < join_files.len()
        invariant
            i <= join_files.len(),
            files@.len() == i,
            forall|j: int| 0 <= j < i ==> #[trigger] files@[j].display@ == join_files@[j].display@
                && same_path(files@[j], join_files@[j]),
        decreases join_files.len() - i,
    {
        files.push(copy_path(&join_files[i]));
        i = i + 1;
    }
    assert(environment_files@.take(0) =~= Seq::<JoinTokenPath>::empty());
    assert(merged_files(join_files@, environment_files@.take(0)) == join_files@);
    let mut e: usize = 0;
    while e < environment_files.len()
        invariant
            e <= environment_files.len(),
            mirrors(files@, merged_files(join_files@, environment_files@.take(e as int))),
        decreases environment_files.len() - e,
    {
        let ghost prev = merged_files(join_files@, environment_files@.take(e as int));
        assert(environment_files@.take(e + 1).drop_last() == environment_files@.take(e as int));
        let path = &environment_files[e];
        let mut found = false;
        let mut j: usize = 0;
        while j < files.len()
            invariant
                j <= files.len(),
                files@.len() == prev.len(),
                mirrors(files@, prev),
                found == exists|m: int| 0 <= m < j && same_path(#[trigger] prev[m], *path),
            decreases files.len() - j,
        {
            assert(files@[j as int].display@ == prev[j as int].display@);
            assert(same_path(files@[j as int], prev[j as int]));
            if paths_equal(&files[j], path) {
                found = true;
                assert(same_path(prev[j as int], *path));
            } else {
                assert(!same_path(prev[j as int], *path));
            }
            j = j + 1;
        }
        if !found {
            files.push(copy_path(path));
            assert(environment_files@.take(e + 1).last() == *path);
        } else {
            assert(environment_files@.take(e + 1).last() == *path);
        }
        e = e + 1;
    }
    assert(environment_files@.take(e as int) == environment_files@);
    files
}

/// The default token file to consult, given the files already named: none
/// when `--join-file` or `MESH_LLM_JOIN_FILE` named one (they win outright),
/// otherwise the default file if it exists.
pub fn default_join_token_file_candidate(
    join_files: &Vec<JoinTokenPath>,
    environment_files: &Vec<JoinTokenPath>,
    default_file: Option<JoinTokenPath>,
    default_exists: bool,
) -> (res: Option<JoinTokenPath>)
    ensures
        res == if join_files@.len() > 0 || environment_files@.len() > 0 || !default_exists {
            None
        } else {
            default_file
        },
{
    if join_files.len() != 0 || environment_files.len() != 0 {
        return None;
    }
    if default_exists {
        default_file
    } else {
        None
    }
}

/// The tokens of `sources` that came from files: they are re-read on every
/// rejoin, so a caller must never record them as literals.
pub fn file_backed_join_tokens(sources: &JoinTokenSources) -> (res: Vec<String>)
    ensures
        res.deep_view() == resolved_file_tokens(sources.file_reads@),
{
    let inline = match &sources.inline_env {
        Some(v) => Some(v.as_str()),
        None => None,
    };
    resolve_invite_token_sources(&sources.literals, inline, &sources.file_reads).file_tokens
}

/// Startup validation: fails with the first unusable source, succeeds when
/// every configured source is usable. The sources themselves are untouched.
pub fn validate_join_token_sources(sources: &JoinTokenSources) -> (res: Result<(), String>)
    ensures
        match res {
            Ok(()) => resolved_errors(owned_option(sources.inline_env), sources.file_reads@).len() == 0,
            Err(e) => resolved_errors(owned_option(sources.inline_env), sources.file_reads@).len() > 0
                && e@ == resolved_errors(owned_option(sources.inline_env), sources.file_reads@)[0],
        },
{
    let inline = match &sources.inline_env {
        Some(v) => Some(v.as_str()),
        None => None,
    };
    let resolved = resolve_invite_token_sources(&sources.literals, inline, &sources.file_reads);
    if resolved.errors.len() > 0 {
        let mut errors = resolved.errors;
        let first = errors.swap_remove(0);
        Err(first)
    } else {
        Ok(())
    }
}

/// The text written to the default token file to remember `token`: the
/// trimmed token and a newline. A blank token cannot be remembered.
pub fn join_token_file_contents(token: &str) -> (res: Result<String, String>)
    ensures
        match res {
            Ok(c) => trimmed(token@).len() > 0 && c@ == trimmed(token@) + "\n"@,
            Err(e) => trimmed(token@).len() == 0 && e@ == "cannot persist an empty invite token"@,
        },
{
    let trimmed_token = trim_text(token);
    if trimmed_token.is_empty() {
        return Err(owned("cannot persist an empty invite token"));
    }
    let mut contents = owned(trimmed_token);
    contents.append("\n");
    Ok(contents)
}

/// Whether `tokens` holds no repeats and only trimmed, non-blank tokens.
pub open spec fn clean_tokens(tokens: Seq<Seq<char>>) -> bool {
    &&& tokens.no_duplicates()
    &&& forall|i: int| 0 <= i < tokens.len() ==> #[trigger] tokens[i].len() > 0 && trimmed(tokens[i]) == tokens[i]
}

/// `with_unique` keeps a clean list clean, and only ever appends.
pub proof fn lemma_with_unique(tokens: Seq<Seq<char>>, token: Seq<char>)
    ensures
        clean_tokens(tokens) ==> clean_tokens(with_unique(tokens, token)),
        with_unique(tokens, token).len() >= tokens.len(),
        with_unique(tokens, token).take(tokens.len() as int) == tokens,
        forall|x: Seq<char>| tokens.contains(x) ==> #[trigger] with_unique(tokens, token).contains(x),
        trimmed(token).len() > 0 ==> with_unique(tokens, token).contains(trimmed(token)),
        forall|x: Seq<char>| #[trigger] with_unique(tokens, token).contains(x) ==> tokens.contains(x) || (x == trimmed(token) && x.len() > 0),
{
    let t = trimmed(token);
    lemma_trimmed_idempotent(token);
    if t.len() == 0 || tokens.contains(t) {
        assert(tokens.take(tokens.len() as int) == tokens);
    } else {
        let r = tokens.push(t);
        assert(r.take(tokens.len() as int) == tokens);
        assert(r[r.len() - 1] == t);
        assert forall|x: Seq<char>| tokens.contains(x) implies #[trigger] r.contains(x) by {
            let k = choose|k: int| 0 <= k < tokens.len() && tokens[k] == x;
            assert(r[k] == x);
        }
        assert forall|x: Seq<char>| #[trigger] r.contains(x) implies tokens.contains(x) || (x == t && x.len() > 0) by {
            let k = choose|k: int| 0 <= k < r.len() && r[k] == x;
            if k < tokens.len() {
                assert(tokens[k] == x);
            }
        }
        if clean_tokens(tokens) {
            assert forall|i: int, j: int| 0 <= i < r.len() && 0 <= j < r.len() && i != j implies r[i] != r[j] by {
                if i < tokens.len() && j < tokens.len() {
                    assert(r[i] == tokens[i] && r[j] == tokens[j]);
                } else if i < tokens.len() {
                    assert(r[i] == tokens[i]);
                    assert(tokens.contains(r[i]));
                } else if j < tokens.len() {
                    assert(r[j] == tokens[j]);
                    assert(tokens.contains(r[j]));
                }
            }
            assert forall|i: int| 0 <= i < r.len() implies #[trigger] r[i].len() > 0 && trimmed(r[i]) == r[i] by {
                if i < tokens.len() {
                    assert(r[i] == tokens[i]);
                }
            }
        }
    }
}

/// Folding `with_unique` keeps a clean list clean, keeps the starting list
/// as a prefix, and only ever adds.
pub proof fn lemma_with_all_unique(tokens: Seq<Seq<char>>, items: Seq<Seq<char>>)
    ensures
        clean_tokens(tokens) ==> clean_tokens(with_all_unique(tokens, items)),
        with_all_unique(tokens, items).len() >= tokens.len(),
        with_all_unique(tokens, items).take(tokens.len() as int) == tokens,
        forall|x: Seq<char>| tokens.contains(x) ==> #[trigger] with_all_unique(tokens, items).contains(x),
    decreases items.len(),
{
    if items.len() > 0 {
        let prev = with_all_unique(tokens, items.drop_last());
        lemma_with_all_unique(tokens, items.drop_last());
        lemma_with_unique(prev, items.last());
        assert(with_all_unique(tokens, items).take(tokens.len() as int) == prev.take(tokens.len() as int)) by {
            assert(with_all_unique(tokens, items).take(prev.len() as int) == prev);
        }
    } else {
        assert(tokens.take(tokens.len() as int) == tokens);
    }
}

/// Whatever folding into an empty list collects, folding the same items
/// into any list collects too.
pub proof fn lemma_with_all_unique_covers(base: Seq<Seq<char>>, items: Seq<Seq<char>>)
    ensures
        forall|x: Seq<char>| #[trigger] with_all_unique(Seq::empty(), items).contains(x) ==> with_all_unique(base, items).contains(x),
    decreases items.len(),
{
    if items.len() > 0 {
        let e = with_all_unique(Seq::empty(), items.drop_last());
        let b = with_all_unique(base, items.drop_last());
        lemma_with_all_unique_covers(base, items.drop_last());
        lemma_with_unique(e, items.last());
        lemma_with_unique(b, items.last());
        assert forall|x: Seq<char>| #[trigger] with_all_unique(Seq::empty(), items).contains(x) implies with_all_unique(base, items).contains(x) by {
            if e.contains(x) {
                assert(b.contains(x));
            }
        }
    }
}

/// The resolved tokens hold no repeats and only trimmed, non-blank tokens;
/// so do the file-backed ones.
pub proof fn resolved_tokens_are_clean(literals: Seq<Seq<char>>, inline: Option<Seq<char>>, reads: Seq<JoinTokenFileRead>)
    ensures
        clean_tokens(resolved_tokens(literals, inline, reads)),
        clean_tokens(resolved_file_tokens(reads)),
{
    let empty = Seq::<Seq<char>>::empty();
    lemma_with_all_unique(empty, literals);
    lemma_with_all_unique(with_all_unique(empty, literals), inline_items(inline));
    lemma_with_all_unique(literal_tokens(literals, inline), outcome_tokens(read_outcomes(reads)));
    lemma_with_all_unique(empty, outcome_tokens(read_outcomes(reads)));
}

/// Priority: the tokens from `--join` literals and `MESH_LLM_JOIN` come
/// first, ahead of every file-backed token, whatever the files hold.
pub proof fn literal_tokens_come_first(literals: Seq<Seq<char>>, inline: Option<Seq<char>>, reads: Seq<JoinTokenFileRead>)
    ensures
        resolved_tokens(literals, inline, reads).len() >= literal_tokens(literals, inline).len(),
        resolved_tokens(literals, inline, reads).take(literal_tokens(literals, inline).len() as int)
            == literal_tokens(literals, inline),
{
    lemma_with_all_unique(literal_tokens(literals, inline), outcome_tokens(read_outcomes(reads)));
}

/// Every file-backed token is among the tokens tried.
pub proof fn file_tokens_are_tried(literals: Seq<Seq<char>>, inline: Option<Seq<char>>, reads: Seq<JoinTokenFileRead>)
    ensures
        forall|x: Seq<char>| #[trigger] resolved_file_tokens(reads).contains(x) ==> resolved_tokens(literals, inline, reads).contains(x),
{
    lemma_with_all_unique_covers(literal_tokens(literals, inline), outcome_tokens(read_outcomes(reads)));
}

/// The number of messages among `outcomes` is the number of unusable ones.
pub proof fn lemma_outcome_messages_empty(outcomes: Seq<Result<Seq<char>, Seq<char>>>)
    ensures
        outcome_messages(outcomes).len() == 0 <==> forall|i: int| 0 <= i < outcomes.len() ==> #[trigger] outcomes[i] is Ok,
    decreases outcomes.len(),
{
    if outcomes.len() > 0 {
        lemma_outcome_messages_empty(outcomes.drop_last());
        if outcome_messages(outcomes).len() == 0 {
            assert forall|i: int| 0 <= i < outcomes.len() implies #[trigger] outcomes[i] is Ok by {
                if i < outcomes.len() - 1 {
                    assert(outcomes[i] == outcomes.drop_last()[i]);
                }
            }
        } else if forall|i: int| 0 <= i < outcomes.len() ==> #[trigger] outcomes[i] is Ok {
            assert(outcomes[outcomes.len() - 1] is Ok);
            assert forall|i: int| 0 <= i < outcomes.drop_last().len() implies #[trigger] outcomes.drop_last()[i] is Ok by {
                assert(outcomes.drop_last()[i] == outcomes[i]);
            }
        }
    }
}

/// Startup passes exactly when every configured source is usable: no
/// `MESH_LLM_JOIN` that is set but blank, and every token file readable and
/// non-blank.
pub proof fn startup_passes_iff_every_source_usable(inline: Option<Seq<char>>, reads: Seq<JoinTokenFileRead>)
    ensures
        resolved_errors(inline, reads).len() == 0 <==> (!(inline matches Some(t) && is_blank(t))
            && forall|i: int| 0 <= i < reads.len() ==> #[trigger] read_outcomes(reads)[i] is Ok),
{
    lemma_outcome_messages_empty(read_outcomes(reads));
    assert forall|i: int| 0 <= i < reads.len() implies #[trigger] read_outcomes(reads)[i] == token_file_outcome(reads[i].path.display@, read_view(reads[i].contents)) by {}
}

/// A remembered token reads back as itself: writing
/// `join_token_file_contents(token)` to a file and reading that file yields
/// the trimmed token.
pub proof fn remembered_token_reads_back(token: Seq<char>, path: Seq<char>)
    requires
        trimmed(token).len() > 0,
    ensures
        token_file_outcome(path, Ok(trimmed(token) + "\n"@)) == Ok::<Seq<char>, Seq<char>>(trimmed(token)),
{
    reveal_strlit("\n");
    let t = trimmed(token);
    assert(t + "\n"@ =~= t.push('\n'));
    lemma_trimmed_push_white(t, '\n');
    lemma_trimmed_idempotent(token);
}

/// Files named by `--join-file` are all read, first and in order; an
/// environment-named file is read only if not already named.
pub proof fn explicit_files_come_first(join_files: Seq<JoinTokenPath>, environment_files: Seq<JoinTokenPath>)
    ensures
        merged_files(join_files, environment_files).len() >= join_files.len(),
        merged_files(join_files, environment_files).take(join_files.len() as int) == join_files,
    decreases environment_files.len(),
{
    if environment_files.len() > 0 {
        explicit_files_come_first(join_files, environment_files.drop_last());
        let prev = merged_files(join_files, environment_files.drop_last());
        assert(prev.push(environment_files.last()).take(join_files.len() as int) == prev.take(join_files.len() as int));
    } else {
        assert(join_files.take(join_files.len() as int) == join_files);
    }
}

/// Every named token file is read: each `--join-file` path and each
/// environment-named path has a file of the same path in the list read, and
/// environment paths that were all named already add nothing to it.
pub proof fn every_named_file_is_read_once(join_files: Seq<JoinTokenPath>, environment_files: Seq<JoinTokenPath>)
    ensures
        forall|i: int| 0 <= i < join_files.len() ==> exists|k: int|
            0 <= k < merged_files(join_files, environment_files).len()
                && same_path(#[trigger] merged_files(join_files, environment_files)[k], #[trigger] join_files[i]),
        forall|i: int| 0 <= i < environment_files.len() ==> exists|k: int|
            0 <= k < merged_files(join_files, environment_files).len()
                && same_path(#[trigger] merged_files(join_files, environment_files)[k], #[trigger] environment_files[i]),
        (forall|i: int| 0 <= i < environment_files.len() ==> exists|j: int|
            0 <= j < join_files.len() && same_path(#[trigger] join_files[j], #[trigger] environment_files[i]))
            ==> merged_files(join_files, environment_files) == join_files,
    decreases environment_files.len(),
{
    let merged = merged_files(join_files, environment_files);
    explicit_files_come_first(join_files, environment_files);
    assert forall|i: int| 0 <= i < join_files.len() implies exists|k: int|
        0 <= k < merged.len() && same_path(#[trigger] merged[k], #[trigger] join_files[i]) by {
        assert(merged.take(join_files.len() as int)[i] == merged[i]);
        assert(same_path(merged[i], join_files[i]));
    }
    if environment_files.len() > 0 {
        let rest = environment_files.drop_last();
        let e = environment_files.last();
        let prev = merged_files(join_files, rest);
        every_named_file_is_read_once(join_files, rest);
        assert(prev.len() <= merged.len() && forall|k: int| 0 <= k < prev.len() ==> merged[k] == prev[k]);
        assert forall|i: int| 0 <= i < environment_files.len() implies exists|k: int|
            0 <= k < merged.len() && same_path(#[trigger] merged[k], #[trigger] environment_files[i]) by {
            if i < rest.len() {
                assert(rest[i] == environment_files[i]);
                let k = choose|k: int| 0 <= k < prev.len() && same_path(#[trigger] prev[k], #[trigger] rest[i]);
                assert(merged[k] == prev[k]);
            } else if exists|k: int| 0 <= k < prev.len() && same_path(#[trigger] prev[k], e) {
                let k = choose|k: int| 0 <= k < prev.len() && same_path(#[trigger] prev[k], e);
                assert(merged[k] == prev[k]);
            } else {
                assert(merged[merged.len() - 1] == e);
                assert(same_path(merged[merged.len() - 1], environment_files[i]));
            }
        }
        if forall|i: int| 0 <= i < environment_files.len() ==> exists|j: int|
            0 <= j < join_files.len() && same_path(#[trigger] join_files[j], #[trigger] environment_files[i]) {
            assert forall|i: int| 0 <= i < rest.len() implies exists|j: int|
                0 <= j < join_files.len() && same_path(#[trigger] join_files[j], #[trigger] rest[i]) by {
                assert(rest[i] == environment_files[i]);
            }
            assert(prev == join_files);
            let j = choose|j: int| 0 <= j < join_files.len() && same_path(#[trigger] join_files[j], #[trigger] environment_files[environment_files.len() - 1]);
            assert(same_path(prev[j], e));
        }
    }
}

/// Whether `t` is the trimmed text of a source: of a `--join` literal, of
/// the inline variable, or of the contents of a token file that was read.
pub open spec fn from_a_source(
    t: Seq<char>,
    literals: Seq<Seq<char>>,
    inline: Option<Seq<char>>,
    reads: Seq<JoinTokenFileRead>,
) -> bool {
    ||| exists|i: int| 0 <= i < literals.len() && trimmed(#[trigger] literals[i]) == t
    ||| inline matches Some(v) && trimmed(v) == t
    ||| from_a_file(t, reads)
}

/// Whether `t` is the trimmed contents of a token file that was read.
pub open spec fn from_a_file(t: Seq<char>, reads: Seq<JoinTokenFileRead>) -> bool {
    exists|i: int| 0 <= i < reads.len() && file_holds(#[trigger] reads[i], t)
}

/// Whether `read` was read and its contents trim to `t`.
pub open spec fn file_holds(read: JoinTokenFileRead, t: Seq<char>) -> bool {
    match read_view(read.contents) {
        Ok(raw) => trimmed(raw) == t,
        Err(_) => false,
    }
}

/// What folding `with_unique` holds beyond the starting list is the trim of
/// one of the items.
pub proof fn lemma_with_all_unique_origin(tokens: Seq<Seq<char>>, items: Seq<Seq<char>>)
    ensures
        forall|x: Seq<char>| #[trigger] with_all_unique(tokens, items).contains(x) ==> tokens.contains(x) || exists|i: int|
            0 <= i < items.len() && trimmed(#[trigger] items[i]) == x,
    decreases items.len(),
{
    if items.len() > 0 {
        let prev = with_all_unique(tokens, items.drop_last());
        lemma_with_all_unique_origin(tokens, items.drop_last());
        lemma_with_unique(prev, items.last());
        assert forall|x: Seq<char>| #[trigger] with_all_unique(tokens, items).contains(x) implies tokens.contains(x) || exists|i: int|
            0 <= i < items.len() && trimmed(#[trigger] items[i]) == x by {
            if prev.contains(x) {
                if !tokens.contains(x) {
                    let i = choose|i: int| 0 <= i < items.drop_last().len() && trimmed(#[trigger] items.drop_last()[i]) == x;
                    assert(items[i] == items.drop_last()[i]);
                }
            } else {
                assert(trimmed(items[items.len() - 1]) == x);
            }
        }
    }
}

/// Every token among `outcomes` is an outcome.
pub proof fn lemma_outcome_tokens_origin(outcomes: Seq<Result<Seq<char>, Seq<char>>>)
    ensures
        forall|x: Seq<char>| #[trigger] outcome_tokens(outcomes).contains(x) ==> exists|i: int|
            0 <= i < outcomes.len() && #[trigger] outcomes[i] == Ok::<Seq<char>, Seq<char>>(x),
    decreases outcomes.len(),
{
    if outcomes.len() > 0 {
        let prev = outcomes.drop_last();
        lemma_outcome_tokens_origin(prev);
        assert forall|x: Seq<char>| #[trigger] outcome_tokens(outcomes).contains(x) implies exists|i: int|
            0 <= i < outcomes.len() && #[trigger] outcomes[i] == Ok::<Seq<char>, Seq<char>>(x) by {
            let p = outcome_tokens(prev);
            if p.contains(x) {
                let i = choose|i: int| 0 <= i < prev.len() && #[trigger] prev[i] == Ok::<Seq<char>, Seq<char>>(x);
                assert(outcomes[i] == prev[i]);
            } else {
                let k = choose|k: int| 0 <= k < outcome_tokens(outcomes).len() && outcome_tokens(outcomes)[k] == x;
                match outcomes.last() {
                    Ok(t) => {
                        assert(outcome_tokens(outcomes) == p.push(t));
                        if k < p.len() {
                            assert(p[k] == x);
                        }
                        assert(outcomes[outcomes.len() - 1] == Ok::<Seq<char>, Seq<char>>(x));
                    },
                    Err(_) => {
                        assert(p[k] == x);
                    },
                }
            }
        }
    }
}

/// Every token the files yield is the trimmed contents of a file read.
pub proof fn lemma_file_token_origin(reads: Seq<JoinTokenFileRead>)
    ensures
        forall|k: int| 0 <= k < outcome_tokens(read_outcomes(reads)).len() ==> from_a_file(
            #[trigger] outcome_tokens(read_outcomes(reads))[k],
            reads,
        ),
{
    let outcomes = read_outcomes(reads);
    lemma_outcome_tokens_origin(outcomes);
    assert forall|k: int| 0 <= k < outcome_tokens(outcomes).len() implies from_a_file(#[trigger] outcome_tokens(outcomes)[k], reads) by {
        let x = outcome_tokens(outcomes)[k];
        assert(outcome_tokens(outcomes).contains(x));
        let i = choose|i: int| 0 <= i < outcomes.len() && #[trigger] outcomes[i] == Ok::<Seq<char>, Seq<char>>(x);
        assert(outcomes[i] == token_file_outcome(reads[i].path.display@, read_view(reads[i].contents)));
    }
}

/// Every token tried is the trimmed text of a source: a `--join` literal,
/// the inline variable, or the contents of a token file that was read; and
/// every file-backed token is the trimmed contents of such a file. Nothing
/// else ever becomes a token.
pub proof fn every_token_comes_from_a_source(literals: Seq<Seq<char>>, inline: Option<Seq<char>>, reads: Seq<JoinTokenFileRead>)
    ensures
        forall|t: Seq<char>| #[trigger] resolved_tokens(literals, inline, reads).contains(t) ==> from_a_source(
            t,
            literals,
            inline,
            reads,
        ),
        forall|t: Seq<char>| #[trigger] resolved_file_tokens(reads).contains(t) ==> from_a_file(t, reads),
{
    let empty = Seq::<Seq<char>>::empty();
    let files = outcome_tokens(read_outcomes(reads));
    let from_literals = with_all_unique(empty, literals);
    lemma_file_token_origin(reads);
    lemma_with_all_unique_origin(empty, literals);
    lemma_with_all_unique_origin(from_literals, inline_items(inline));
    lemma_with_all_unique_origin(literal_tokens(literals, inline), files);
    lemma_with_all_unique_origin(empty, files);
    assert forall|i: int| 0 <= i < files.len() implies from_a_file(trimmed(#[trigger] files[i]), reads) by {
        let x = files[i];
        assert(from_a_file(x, reads));
        let j = choose|j: int| 0 <= j < reads.len() && file_holds(#[trigger] reads[j], x);
        let raw = read_view(reads[j].contents)->Ok_0;
        lemma_trimmed_idempotent(raw);
        assert(file_holds(reads[j], trimmed(x)));
    }
    assert forall|t: Seq<char>| #[trigger] resolved_tokens(literals, inline, reads).contains(t) implies from_a_source(
        t,
        literals,
        inline,
        reads,
    ) by {
        if literal_tokens(literals, inline).contains(t) {
            if !from_literals.contains(t) {
                let j = choose|j: int| 0 <= j < inline_items(inline).len() && trimmed(#[trigger] inline_items(inline)[j]) == t;
                assert(inline_items(inline)[j] == inline->0);
            }
        } else {
            let i = choose|i: int| 0 <= i < files.len() && trimmed(#[trigger] files[i]) == t;
            assert(from_a_file(trimmed(files[i]), reads));
        }
    }
    assert forall|t: Seq<char>| #[trigger] resolved_file_tokens(reads).contains(t) implies from_a_file(t, reads) by {
        let i = choose|i: int| 0 <= i < files.len() && trimmed(#[trigger] files[i]) == t;
        assert(from_a_file(trimmed(files[i]), reads));
    }
}

} // verus!
