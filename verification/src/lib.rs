//! Classify files by programming language.
//!
//! The engine is a two-stage matcher driven by a registry of language
//! definitions: a file's shebang interpreter is consulted first, and its
//! bare file name is tested against glob patterns second.  Interpreter
//! evidence wins over file-name evidence, and within each stage the
//! registry is scanned in ascending key order, so classification is a
//! function of the registry and the file alone.

pub mod config;
pub mod languages;
pub mod shebang;
pub mod text;
pub mod walk;

use vstd::prelude::*;

use crate::languages::Language;
use crate::languages::LanguageEntryView;
use crate::languages::LanguageView;
use crate::languages::Languages;
use crate::languages::glob_set_matches;
use crate::languages::lang_eq;
use crate::languages::lemma_lookup_bounds;
use crate::languages::matches_any_glob;
use crate::languages::matches_any_interpreter;
use crate::languages::sorted_by_key;
use crate::languages::spec_lookup_from;
use crate::shebang::FirstLine;
use crate::shebang::base_name;
use crate::shebang::resolve_interpreter;
use crate::shebang::spec_base_name;
use crate::shebang::spec_resolve_interpreter;
use crate::text::lex_lt;
use crate::text::seq_contains_chars;
use vstd::string::StringExecFns;

verus! {

/// The position of the first language, in registry order, whose
/// interpreter set holds `name`, at or after `i`.
pub open spec fn first_interpreter_match_from(
    langs: Seq<LanguageEntryView>,
    name: Seq<char>,
    i: int,
) -> Option<int>
    decreases langs.len() - i,
{
    if i < 0 || i >= langs.len() {
        None
    } else if seq_contains_chars(langs[i].language.interpreters, name) {
        Some(i)
    } else {
        first_interpreter_match_from(langs, name, i + 1)
    }
}

/// The position of the first language, in registry order, with a
/// well-formed glob pattern matching the file name `name`, at or after
/// `i`.
pub open spec fn first_glob_match_from(
    langs: Seq<LanguageEntryView>,
    name: Seq<char>,
    i: int,
) -> Option<int>
    decreases langs.len() - i,
{
    if i < 0 || i >= langs.len() {
        None
    } else if glob_set_matches(langs[i].language.globs, name) {
        Some(i)
    } else {
        first_glob_match_from(langs, name, i + 1)
    }
}

pub proof fn lemma_first_interpreter_match_bounds(
    langs: Seq<LanguageEntryView>,
    name: Seq<char>,
    i: int,
)
    requires
        0 <= i,
    ensures
        match first_interpreter_match_from(langs, name, i) {
            Some(j) => i <= j < langs.len() && seq_contains_chars(
                langs[j].language.interpreters,
                name,
            ) && forall|k: int|
                i <= k < j ==> !seq_contains_chars(
                    (#[trigger] langs[k]).language.interpreters,
                    name,
                ),
            None => forall|k: int|
                i <= k < langs.len() ==> !seq_contains_chars(
                    (#[trigger] langs[k]).language.interpreters,
                    name,
                ),
        },
    decreases langs.len() - i,
{
    if i < langs.len() && !seq_contains_chars(langs[i].language.interpreters, name) {
        lemma_first_interpreter_match_bounds(langs, name, i + 1);
    }
}

pub proof fn lemma_first_glob_match_bounds(langs: Seq<LanguageEntryView>, name: Seq<char>, i: int)
    requires
        0 <= i,
    ensures
        match first_glob_match_from(langs, name, i) {
            Some(j) => i <= j < langs.len() && glob_set_matches(langs[j].language.globs, name)
                && forall|k: int|
                i <= k < j ==> !glob_set_matches((#[trigger] langs[k]).language.globs, name),
            None => forall|k: int|
                i <= k < langs.len() ==> !glob_set_matches(
                    (#[trigger] langs[k]).language.globs,
                    name,
                ),
        },
    decreases langs.len() - i,
{
    if i < langs.len() && !glob_set_matches(langs[i].language.globs, name) {
        lemma_first_glob_match_bounds(langs, name, i + 1);
    }
}

/// The classification of one file: the first language claiming the
/// file's shebang interpreter, and only when no language does, the first
/// language with a glob pattern matching the file's bare name.  The
/// registry is scanned in its stored order — ascending key order for a
/// loaded registry — so ties fall to the smallest key.
pub open spec fn spec_identify(
    langs: Seq<LanguageEntryView>,
    path: Seq<char>,
    first_line: FirstLine,
) -> Option<int> {
    let by_interp = match spec_resolve_interpreter(first_line) {
        Some(n) => first_interpreter_match_from(langs, n, 0),
        None => None,
    };
    match by_interp {
        Some(i) => Some(i),
        None => match spec_base_name(path) {
            Some(f) => first_glob_match_from(langs, f, 0),
            None => None,
        },
    }
}

/// Interpreter evidence wins over file-name evidence: when the first
/// line resolves to an interpreter that some language claims, the
/// classification is the first such language in registry order —
/// whatever any glob pattern would say of the file's name.
pub proof fn lemma_interpreter_precedence(
    langs: Seq<LanguageEntryView>,
    path: Seq<char>,
    first_line: FirstLine,
    n: Seq<char>,
    i: int,
)
    requires
        spec_resolve_interpreter(first_line) == Some(n),
        first_interpreter_match_from(langs, n, 0) == Some(i),
    ensures
        spec_identify(langs, path, first_line) == Some(i),
{
}

/// Classification is deterministic: any two results that the contract
/// of `identify` admits for one registry, one path and one first line
/// are the same result.
pub proof fn lemma_identify_deterministic(
    langs: Seq<LanguageEntryView>,
    path: Seq<char>,
    first_line: FirstLine,
    r1: Option<int>,
    r2: Option<int>,
)
    requires
        r1 == spec_identify(langs, path, first_line),
        r2 == spec_identify(langs, path, first_line),
    ensures
        r1 == r2,
{
}

/// The interpreter stage breaks ties by ascending key: in a registry
/// with strictly ascending keys — as `load` builds it — every other
/// language claiming the same interpreter carries a larger key than the
/// one chosen.
pub proof fn lemma_interpreter_tie_break(langs: Seq<LanguageEntryView>, name: Seq<char>, i: int)
    requires
        sorted_by_key(langs),
        first_interpreter_match_from(langs, name, 0) == Some(i),
    ensures
        forall|j: int|
            0 <= j < langs.len() && j != i && seq_contains_chars(
                (#[trigger] langs[j]).language.interpreters,
                name,
            ) ==> lex_lt(langs[i].key, langs[j].key),
{
    lemma_first_interpreter_match_bounds(langs, name, 0);
}

/// The glob stage breaks ties by ascending key in the same way: every
/// other language with a matching glob pattern carries a larger key
/// than the one chosen.
pub proof fn lemma_glob_tie_break(langs: Seq<LanguageEntryView>, name: Seq<char>, i: int)
    requires
        sorted_by_key(langs),
        first_glob_match_from(langs, name, 0) == Some(i),
    ensures
        forall|j: int|
            0 <= j < langs.len() && j != i && glob_set_matches(
                (#[trigger] langs[j]).language.globs,
                name,
            ) ==> lex_lt(langs[i].key, langs[j].key),
{
    lemma_first_glob_match_bounds(langs, name, 0);
}

/// The position that `spec_identify` picks lies within the registry.
pub proof fn lemma_spec_identify_bounds(
    langs: Seq<LanguageEntryView>,
    path: Seq<char>,
    first_line: FirstLine,
)
    ensures
        match spec_identify(langs, path, first_line) {
            Some(i) => 0 <= i < langs.len(),
            None => true,
        },
{
    match spec_resolve_interpreter(first_line) {
        Some(n) => lemma_first_interpreter_match_bounds(langs, n, 0),
        None => {},
    }
    match spec_base_name(path) {
        Some(f) => lemma_first_glob_match_bounds(langs, f, 0),
        None => {},
    }
}

/// Find the first language, in registry order, whose interpreter set
/// holds `name`.
pub fn find_lang_by_interpreter<'a>(languages: &'a Languages, name: &str) -> (r: Option<
    &'a Language,
>)
    ensures
        match first_interpreter_match_from(languages@, name@, 0) {
            Some(i) => r matches Some(l) && *l == languages.languages@[i].language,
            None => r is None,
        },
{
    let mut i: usize = 0;
    while i < languages.languages.len()
        invariant
            i <= languages.languages@.len(),
            first_interpreter_match_from(languages@, name@, 0) == first_interpreter_match_from(
                languages@,
                name@,
                i as int,
            ),
        decreases languages.languages@.len() - i,
    {
        if matches_any_interpreter(&languages.languages[i].language.interpreters, name) {
            assert(seq_contains_chars(languages@[i as int].language.interpreters, name@));
            return Some(&languages.languages[i].language);
        }
        assert(!seq_contains_chars(languages@[i as int].language.interpreters, name@));
        i += 1;
    }
    None
}

/// Find the first language, in registry order, with a glob pattern
/// matching the file name `name`.
pub fn find_lang_by_glob<'a>(languages: &'a Languages, name: &str) -> (r: Option<&'a Language>)
    ensures
        match first_glob_match_from(languages@, name@, 0) {
            Some(i) => r matches Some(l) && *l == languages.languages@[i].language,
            None => r is None,
        },
{
    let mut i: usize = 0;
    while i < languages.languages.len()
        invariant
            i <= languages.languages@.len(),
            first_glob_match_from(languages@, name@, 0) == first_glob_match_from(
                languages@,
                name@,
                i as int,
            ),
        decreases languages.languages@.len() - i,
    {
        if matches_any_glob(&languages.languages[i].language.globs, name) {
            assert(glob_set_matches(languages@[i as int].language.globs, name@));
            return Some(&languages.languages[i].language);
        }
        assert(!glob_set_matches(languages@[i as int].language.globs, name@));
        i += 1;
    }
    None
}

/// Identify the language of one file from its path and its first line.
/// Interpreter evidence wins over file-name evidence, and an
/// unclassified file is no error: it is simply none.
pub fn identify<'a>(languages: &'a Languages, path: &str, first_line: &FirstLine) -> (r: Option<
    &'a Language,
>)
    ensures
        match spec_identify(languages@, path@, *first_line) {
            Some(i) => r matches Some(l) && *l == languages.languages@[i].language,
            None => r is None,
        },
{
    let interp = resolve_interpreter(first_line);
    let by_interp = match &interp {
        Some(n) => find_lang_by_interpreter(languages, n.as_str()),
        None => None,
    };
    match by_interp {
        Some(l) => Some(l),
        None => match base_name(path) {
            Some(f) => find_lang_by_glob(languages, f),
            None => None,
        },
    }
}

/// True when a language filter admits the classification `lang`: with no
/// filter every classification is admitted, the unknown one included;
/// with a filter only that very language passes.
pub open spec fn spec_should_print(
    lang: Option<LanguageView>,
    lang_filter: Option<LanguageView>,
) -> bool {
    match lang_filter {
        None => true,
        Some(f) => lang == Some(f),
    }
}

/// Decide whether a classification passes the language filter.
pub fn should_print(lang: Option<&Language>, lang_filter: Option<&Language>) -> (r: bool)
    ensures
        r == spec_should_print(lang.deep_view(), lang_filter.deep_view()),
{
    match lang_filter {
        None => true,
        Some(f) => match lang {
            Some(l) => lang_eq(l, f),
            None => false,
        },
    }
}

/// The characters of one output line for a classified file: the path
/// alone, or `path: language`.
pub open spec fn spec_render_line(
    path: Seq<char>,
    language_name: Seq<char>,
    filename_only: bool,
) -> Seq<char> {
    if filename_only {
        path
    } else {
        path + ": "@ + language_name
    }
}

/// Render one output line for a classified file.
pub fn render_line(path: &str, language_name: &str, filename_only: bool) -> (r: String)
    ensures
        r@ == spec_render_line(path@, language_name@, filename_only),
{
    if filename_only {
        String::from_str(path)
    } else {
        let mut s = String::from_str(path);
        s.append(": ");
        s.append(language_name);
        s
    }
}

/// The display name of a classification: the language's name, or
/// `Unknown` for the absence of one.
pub open spec fn spec_lang_name(lang: Option<LanguageView>) -> Seq<char> {
    match lang {
        Some(l) => l.name,
        None => "Unknown"@,
    }
}

/// One file to classify: its displayed path and its first line.
#[derive(Debug)]
pub struct FileInput {
    pub path: String,
    pub first_line: FirstLine,
}

/// The classification view of one file: the language at the position
/// that `spec_identify` picks, or none.
pub open spec fn spec_identified_language(
    langs: Seq<LanguageEntryView>,
    file: FileInput,
) -> Option<LanguageView> {
    match spec_identify(langs, file.path@, file.first_line) {
        Some(i) => Some(langs[i].language),
        None => None,
    }
}

/// The output line that one file contributes: its rendered line when its
/// classification passes the filter, and nothing otherwise.
pub open spec fn spec_classify_entry(
    langs: Seq<LanguageEntryView>,
    file: FileInput,
    filter: Option<LanguageView>,
    filename_only: bool,
) -> Option<Seq<char>> {
    let lang = spec_identified_language(langs, file);
    if spec_should_print(lang, filter) {
        Some(spec_render_line(file.path@, spec_lang_name(lang), filename_only))
    } else {
        None
    }
}

/// Classify one file and render its output line, or nothing when the
/// filter suppresses it.
pub fn classify_entry(
    languages: &Languages,
    file: &FileInput,
    lang_filter: Option<&Language>,
    filename_only: bool,
) -> (r: Option<String>)
    ensures
        r.deep_view() == spec_classify_entry(
            languages@,
            *file,
            lang_filter.deep_view(),
            filename_only,
        ),
{
    let lang = identify(languages, file.path.as_str(), &file.first_line);
    proof {
        lemma_spec_identify_bounds(languages@, file.path@, file.first_line);
        assert(lang.deep_view() == spec_identified_language(languages@, *file));
    }
    let name: &str = match lang {
        Some(l) => l.name.as_str(),
        None => "Unknown",
    };
    if should_print(lang, lang_filter) {
        Some(render_line(file.path.as_str(), name, filename_only))
    } else {
        None
    }
}

/// The language filter that a filter key selects: the registry entry it
/// looks up, or no filter at all — also when the key is unknown.
pub open spec fn spec_filter(
    langs: Seq<LanguageEntryView>,
    filter_key: Option<Seq<char>>,
) -> Option<LanguageView> {
    match filter_key {
        Some(k) => match spec_lookup_from(langs, k, 0) {
            Some(i) => Some(langs[i].language),
            None => None,
        },
        None => None,
    }
}

/// The output lines of the files at or after `i`, the lines of `acc`
/// already rendered.
pub open spec fn spec_run_from(
    langs: Seq<LanguageEntryView>,
    files: Seq<FileInput>,
    filter: Option<LanguageView>,
    filename_only: bool,
    i: int,
    acc: Seq<Seq<char>>,
) -> Seq<Seq<char>>
    decreases files.len() - i,
{
    if i < 0 || i >= files.len() {
        acc
    } else {
        let acc2 = match spec_classify_entry(langs, files[i], filter, filename_only) {
            Some(line) => acc.push(line),
            None => acc,
        };
        spec_run_from(langs, files, filter, filename_only, i + 1, acc2)
    }
}

/// The whole classification pass: each file in order contributes its
/// line when its classification passes the filter that `filter_key`
/// selects.
pub open spec fn spec_run(
    langs: Seq<LanguageEntryView>,
    files: Seq<FileInput>,
    filter_key: Option<Seq<char>>,
    filename_only: bool,
) -> Seq<Seq<char>> {
    spec_run_from(
        langs,
        files,
        spec_filter(langs, filter_key),
        filename_only,
        0,
        Seq::empty(),
    )
}

/// Classify a batch of files and render their output lines in order:
/// the computational heart of one run of the program.
pub fn run_batch(
    languages: &Languages,
    files: &Vec<FileInput>,
    filter_key: Option<&String>,
    filename_only: bool,
) -> (r: Vec<String>)
    ensures
        r.deep_view() == spec_run(languages@, files@, filter_key.deep_view(), filename_only),
{
    let ghost filterv = spec_filter(languages@, filter_key.deep_view());
    let lang_filter: Option<&Language> = match filter_key {
        Some(k) => languages.lookup(k.as_str()),
        None => None,
    };
    proof {
        match filter_key.deep_view() {
            Some(k) => lemma_lookup_bounds(languages@, k, 0),
            None => {},
        }
        assert(lang_filter.deep_view() == filterv);
    }
    let mut out: Vec<String> = Vec::new();
    proof {
        assert(out.deep_view() =~= Seq::<Seq<char>>::empty());
    }
    let mut i: usize = 0;
    while i < files.len()
        invariant
            i <= files@.len(),
            lang_filter.deep_view() == filterv,
            spec_run(languages@, files@, filter_key.deep_view(), filename_only) == spec_run_from(
                languages@,
                files@,
                filterv,
                filename_only,
                i as int,
                out.deep_view(),
            ),
        decreases files@.len() - i,
    {
        let ghost old_out = out.deep_view();
        match classify_entry(languages, &files[i], lang_filter, filename_only) {
            Some(line) => {
                out.push(line);
                proof {
                    assert(out.deep_view() =~= old_out.push(
                        spec_classify_entry(
                            languages@,
                            files@[i as int],
                            filterv,
                            filename_only,
                        ).unwrap(),
                    ));
                }
            },
            None => {},
        }
        i += 1;
    }
    out
}

/// The listing of the supported languages at or after `i`, one
/// `key: name` line per entry, in registry order.
pub open spec fn spec_language_list_from(
    langs: Seq<LanguageEntryView>,
    i: int,
    acc: Seq<Seq<char>>,
) -> Seq<Seq<char>>
    decreases langs.len() - i,
{
    if i < 0 || i >= langs.len() {
        acc
    } else {
        spec_language_list_from(
            langs,
            i + 1,
            acc.push(spec_render_line(langs[i].key, langs[i].language.name, false)),
        )
    }
}

/// Render the listing of supported languages, one `key: name` line per
/// registry entry, in registry order.
pub fn list_languages(languages: &Languages) -> (r: Vec<String>)
    ensures
        r.deep_view() == spec_language_list_from(languages@, 0, Seq::empty()),
{
    let mut out: Vec<String> = Vec::new();
    proof {
        assert(out.deep_view() =~= Seq::<Seq<char>>::empty());
    }
    let mut i: usize = 0;
    while i < languages.languages.len()
        invariant
            i <= languages.languages@.len(),
            spec_language_list_from(languages@, 0, Seq::empty()) == spec_language_list_from(
                languages@,
                i as int,
                out.deep_view(),
            ),
        decreases languages.languages@.len() - i,
    {
        let ghost old_out = out.deep_view();
        let entry = &languages.languages[i];
        let line = render_line(entry.key.as_str(), entry.language.name.as_str(), false);
        out.push(line);
        proof {
            assert(out.deep_view() =~= old_out.push(
                spec_render_line(
                    languages@[i as int].key,
                    languages@[i as int].language.name,
                    false,
                ),
            ));
        }
        i += 1;
    }
    out
}

} // verus!
