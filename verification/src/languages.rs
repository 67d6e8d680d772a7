//! The language registry: an immutable set of language definitions, each
//! a display name with the glob patterns its file names match and the
//! interpreter names its shebang lines carry, keyed by a short identifier
//! and held in ascending key order so that enumeration and tie-breaking
//! are deterministic.

use vstd::prelude::*;

use crate::text::contains_str;
use crate::text::lemma_lex_lt_connected;
use crate::text::lemma_lex_lt_irrefl;
use crate::text::lemma_lex_lt_trans;
use crate::text::lex_lt;
use crate::text::seq_contains_chars;
use crate::text::str_eq;
use crate::text::str_lt;
use vstd::multiset::Multiset;

verus! {

/// One language definition: a display name, the glob patterns its file
/// names match, and the interpreter names its shebang lines carry.
/// Globs and interpreters may each be empty; an entry with neither is
/// useless but tolerated.
#[derive(Debug)]
pub struct Language {
    pub name: String,
    pub globs: Vec<String>,
    pub interpreters: Vec<String>,
}

/// The mathematical content of a `Language`.
#[verifier::ext_equal]
pub ghost struct LanguageView {
    pub name: Seq<char>,
    pub globs: Seq<Seq<char>>,
    pub interpreters: Seq<Seq<char>>,
}

impl View for Language {
    type V = LanguageView;

    open spec fn view(&self) -> LanguageView {
        LanguageView {
            name: self.name@,
            globs: self.globs.deep_view(),
            interpreters: self.interpreters.deep_view(),
        }
    }
}

impl DeepView for Language {
    type V = LanguageView;

    open spec fn deep_view(&self) -> LanguageView {
        self.view()
    }
}

/// A language definition together with the identifier that keys it.
#[derive(Debug)]
pub struct LanguageEntry {
    pub key: String,
    pub language: Language,
}

/// The mathematical content of a `LanguageEntry`.
#[verifier::ext_equal]
pub ghost struct LanguageEntryView {
    pub key: Seq<char>,
    pub language: LanguageView,
}

impl View for LanguageEntry {
    type V = LanguageEntryView;

    open spec fn view(&self) -> LanguageEntryView {
        LanguageEntryView { key: self.key@, language: self.language@ }
    }
}

impl DeepView for LanguageEntry {
    type V = LanguageEntryView;

    open spec fn deep_view(&self) -> LanguageEntryView {
        self.view()
    }
}

/// The registry of language definitions.  `load` builds it with strictly
/// ascending keys, so enumeration order and tie-breaking are fixed.
#[derive(Debug)]
pub struct Languages {
    pub languages: Vec<LanguageEntry>,
}

impl View for Languages {
    type V = Seq<LanguageEntryView>;

    open spec fn view(&self) -> Seq<LanguageEntryView> {
        self.languages.deep_view()
    }
}

/// Whether the glob crate accepts `pattern` as a well-formed pattern:
/// what `glob::Pattern::new` decides for these characters.
pub uninterp spec fn glob_valid(pattern: Seq<char>) -> bool;

/// Whether the well-formed glob pattern `pattern` matches the file name
/// `name` under the glob crate's default match options: what
/// `glob::Pattern::matches` decides for these characters.
pub uninterp spec fn glob_match(pattern: Seq<char>, name: Seq<char>) -> bool;

/// Relies on `glob::Pattern::new`: compiling a pattern is a function of
/// its characters alone, and yields `Err` exactly on a malformed pattern.
#[verifier::external_body]
fn glob_pattern_valid(pattern: &str) -> (r: bool)
    ensures
        r == glob_valid(pattern@),
{
    glob::Pattern::new(pattern).is_ok()
}

/// Relies on `glob::Pattern::new` and `glob::Pattern::matches`: whether a
/// pattern matches a name is a function of the pattern's characters and
/// the name's characters alone (the default `MatchOptions` are one fixed
/// value), and a malformed pattern matches nothing.
#[verifier::external_body]
fn glob_match_str(pattern: &str, name: &str) -> (r: bool)
    ensures
        r == (glob_valid(pattern@) && glob_match(pattern@, name@)),
{
    match glob::Pattern::new(pattern) {
        Ok(p) => p.matches(name),
        Err(_) => false,
    }
}

/// Whether some pattern of `globs` is well-formed and matches `name`.
pub open spec fn glob_set_matches(globs: Seq<Seq<char>>, name: Seq<char>) -> bool {
    exists|i: int| 0 <= i < globs.len() && glob_valid(globs[i]) && glob_match(globs[i], name)
}

/// Decide whether any pattern of `globs` matches the file name `name`;
/// a pattern that does not compile matches nothing.
pub fn matches_any_glob(globs: &Vec<String>, name: &str) -> (r: bool)
    ensures
        r == glob_set_matches(globs.deep_view(), name@),
{
    let mut i: usize = 0;
    while i < globs.len()
        invariant
            i <= globs@.len(),
            forall|j: int|
                0 <= j < i ==> !(glob_valid(globs.deep_view()[j]) && glob_match(
                    globs.deep_view()[j],
                    name@,
                )),
        decreases globs@.len() - i,
    {
        if glob_match_str(globs[i].as_str(), name) {
            assert(glob_valid(globs.deep_view()[i as int]) && glob_match(
                globs.deep_view()[i as int],
                name@,
            ));
            return true;
        }
        i += 1;
    }
    false
}

/// Decide whether the interpreter set `interpreters` holds `name`.
pub fn matches_any_interpreter(interpreters: &Vec<String>, name: &str) -> (r: bool)
    ensures
        r == seq_contains_chars(interpreters.deep_view(), name@),
{
    contains_str(interpreters, name)
}

/// Decide whether two language definitions hold the same content.
pub fn lang_eq(a: &Language, b: &Language) -> (r: bool)
    ensures
        r == (a@ == b@),
{
    let r = str_eq(a.name.as_str(), b.name.as_str()) && crate::text::strings_eq(&a.globs, &b.globs)
        && crate::text::strings_eq(&a.interpreters, &b.interpreters);
    proof {
        if r {
            assert(a@ =~= b@);
        }
    }
    r
}

/// The position of the first entry keyed `id`, at or after `i`.
pub open spec fn spec_lookup_from(
    langs: Seq<LanguageEntryView>,
    id: Seq<char>,
    i: int,
) -> Option<int>
    decreases langs.len() - i,
{
    if i < 0 || i >= langs.len() {
        None
    } else if langs[i].key == id {
        Some(i)
    } else {
        spec_lookup_from(langs, id, i + 1)
    }
}

pub proof fn lemma_lookup_bounds(langs: Seq<LanguageEntryView>, id: Seq<char>, i: int)
    requires
        0 <= i,
    ensures
        match spec_lookup_from(langs, id, i) {
            Some(j) => i <= j < langs.len() && langs[j].key == id,
            None => true,
        },
    decreases langs.len() - i,
{
    if i < langs.len() && langs[i].key != id {
        lemma_lookup_bounds(langs, id, i + 1);
    }
}

impl Languages {
    /// Find the language definition keyed by `id`.
    pub fn lookup<'a>(&'a self, id: &str) -> (r: Option<&'a Language>)
        ensures
            match spec_lookup_from(self@, id@, 0) {
                Some(i) => r matches Some(l) && *l == self.languages@[i].language,
                None => r is None,
            },
    {
        let mut i: usize = 0;
        while i < self.languages.len()
            invariant
                i <= self.languages@.len(),
                spec_lookup_from(self@, id@, 0) == spec_lookup_from(self@, id@, i as int),
            decreases self.languages@.len() - i,
        {
            if str_eq(self.languages[i].key.as_str(), id) {
                assert(self@[i as int].key == id@);
                return Some(&self.languages[i].language);
            }
            assert(self@[i as int].key != id@);
            i += 1;
        }
        None
    }

    /// Every entry of the registry, in the order it holds them: ascending
    /// by key when the registry came from `load`.
    pub fn all(&self) -> (r: &Vec<LanguageEntry>)
        ensures
            r == &self.languages,
    {
        &self.languages
    }
}

/// Why the registry could not be built from its rule data.  Either defect
/// is fatal: it marks the bundled data itself as malformed.
#[derive(Debug)]
pub enum LoadError {
    /// Two entries share this identifier.
    DuplicateKey(String),
    /// This glob pattern does not compile.
    InvalidGlob(String),
}

/// The mathematical content of a `LoadError`.
#[verifier::ext_equal]
pub ghost enum LoadErrorView {
    DuplicateKey(Seq<char>),
    InvalidGlob(Seq<char>),
}

impl View for LoadError {
    type V = LoadErrorView;

    open spec fn view(&self) -> LoadErrorView {
        match *self {
            LoadError::DuplicateKey(ref k) => LoadErrorView::DuplicateKey(k@),
            LoadError::InvalidGlob(ref g) => LoadErrorView::InvalidGlob(g@),
        }
    }
}

/// The first ill-formed pattern among `globs`, at or after `i`.
pub open spec fn first_invalid_glob_from(globs: Seq<Seq<char>>, i: int) -> Option<Seq<char>>
    decreases globs.len() - i,
{
    if i < 0 || i >= globs.len() {
        None
    } else if !glob_valid(globs[i]) {
        Some(globs[i])
    } else {
        first_invalid_glob_from(globs, i + 1)
    }
}

/// Whether `langs` holds an entry keyed `k`.
pub open spec fn has_key(langs: Seq<LanguageEntryView>, k: Seq<char>) -> bool {
    exists|j: int| 0 <= j < langs.len() && langs[j].key == k
}

/// The position at which an entry keyed `k` belongs in `langs`: the
/// first position, at or after `i`, whose key does not come before `k`.
pub open spec fn insert_pos_from(langs: Seq<LanguageEntryView>, k: Seq<char>, i: int) -> int
    decreases langs.len() - i,
{
    if i < 0 || i >= langs.len() {
        langs.len() as int
    } else if lex_lt(langs[i].key, k) {
        insert_pos_from(langs, k, i + 1)
    } else {
        i
    }
}

/// `langs` holds strictly ascending keys.
pub open spec fn sorted_by_key(langs: Seq<LanguageEntryView>) -> bool {
    forall|i: int, j: int| 0 <= i < j < langs.len() ==> lex_lt(langs[i].key, langs[j].key)
}

pub proof fn lemma_insert_pos(langs: Seq<LanguageEntryView>, k: Seq<char>, i: int)
    requires
        0 <= i <= langs.len(),
    ensures
        i <= insert_pos_from(langs, k, i) <= langs.len(),
        forall|j: int| i <= j < insert_pos_from(langs, k, i) ==> lex_lt(langs[j].key, k),
        insert_pos_from(langs, k, i) < langs.len() ==> !lex_lt(
            langs[insert_pos_from(langs, k, i)].key,
            k,
        ),
    decreases langs.len() - i,
{
    if i < langs.len() && lex_lt(langs[i].key, k) {
        lemma_insert_pos(langs, k, i + 1);
    }
}

/// Inserting a fresh key at its position keeps the keys strictly
/// ascending.
pub proof fn lemma_sorted_insert(langs: Seq<LanguageEntryView>, e: LanguageEntryView)
    requires
        sorted_by_key(langs),
        !has_key(langs, e.key),
    ensures
        sorted_by_key(langs.insert(insert_pos_from(langs, e.key, 0), e)),
{
    let p = insert_pos_from(langs, e.key, 0);
    lemma_insert_pos(langs, e.key, 0);
    langs.insert_ensures(p, e);
    let s2 = langs.insert(p, e);
    assert forall|j: int| p <= j < langs.len() implies lex_lt(e.key, langs[j].key) by {
        assert(!lex_lt(langs[p].key, e.key));
        if !lex_lt(e.key, langs[p].key) {
            lemma_lex_lt_connected(langs[p].key, e.key, 0);
            assert(langs[p].key =~= e.key);
            assert(langs[p].key == e.key);
            assert(has_key(langs, e.key));
            assert(false);
        }
        if j > p {
            assert(lex_lt(langs[p].key, langs[j].key));
            lemma_lex_lt_trans(e.key, langs[p].key, langs[j].key, 0);
        }
    }
    assert forall|x: int, y: int| 0 <= x < y < s2.len() implies lex_lt(s2[x].key, s2[y].key) by {
        if x < p && y < p {
            assert(s2[x] == langs[x] && s2[y] == langs[y]);
        } else if x < p && y == p {
            assert(s2[x] == langs[x] && s2[y] == e);
        } else if x < p && y > p {
            assert(s2[x] == langs[x] && s2[y] == langs[y - 1]);
        } else if x == p {
            assert(s2[x] == e && s2[y] == langs[y - 1]);
        } else {
            assert(s2[x] == langs[x - 1] && s2[y] == langs[y - 1]);
        }
    }
}

/// What loading builds from the entries of `src` at or after `i`, having
/// already placed `acc` in ascending key order: each remaining entry in
/// turn is refused for its first ill-formed glob pattern, refused when
/// its key is already present, and otherwise inserted at its key's
/// position.
pub open spec fn spec_load_from(
    src: Seq<LanguageEntryView>,
    i: int,
    acc: Seq<LanguageEntryView>,
) -> Result<Seq<LanguageEntryView>, LoadErrorView>
    decreases src.len() - i,
{
    if i < 0 || i >= src.len() {
        Ok(acc)
    } else {
        match first_invalid_glob_from(src[i].language.globs, 0) {
            Some(g) => Err(LoadErrorView::InvalidGlob(g)),
            None => {
                if has_key(acc, src[i].key) {
                    Err(LoadErrorView::DuplicateKey(src[i].key))
                } else {
                    spec_load_from(
                        src,
                        i + 1,
                        acc.insert(insert_pos_from(acc, src[i].key, 0), src[i]),
                    )
                }
            },
        }
    }
}

/// The registry that the raw entries `src` load to: their definitions in
/// ascending key order, or the first defect found.
pub open spec fn spec_load(src: Seq<LanguageEntryView>) -> Result<
    Seq<LanguageEntryView>,
    LoadErrorView,
> {
    spec_load_from(src, 0, Seq::empty())
}

/// Inserting an element anywhere adds exactly that element to the
/// sequence's multiset of elements.
proof fn lemma_insert_to_multiset(s: Seq<LanguageEntryView>, p: int, e: LanguageEntryView)
    requires
        0 <= p <= s.len(),
    ensures
        s.insert(p, e).to_multiset() =~= s.to_multiset().insert(e),
{
    let t = s.insert(p, e);
    s.insert_ensures(p, e);
    t.to_multiset_ensures();
    s.to_multiset_ensures();
    assert(t.remove(p) =~= s);
    assert(t.to_multiset().remove(e) =~= s.to_multiset());
    assert(t[p] == e);
    assert(t.contains(e));
    assert(t.to_multiset().count(e) > 0);
}

/// Dropping a sequence's first element removes exactly that element
/// from its multiset of elements.
proof fn lemma_skip_one_to_multiset(s: Seq<LanguageEntryView>, i: int)
    requires
        0 <= i < s.len(),
    ensures
        s.subrange(i, s.len() as int).to_multiset() =~= s.subrange(
            i + 1,
            s.len() as int,
        ).to_multiset().insert(s[i]),
{
    let a = s.subrange(i, s.len() as int);
    let b = s.subrange(i + 1, s.len() as int);
    a.to_multiset_ensures();
    b.to_multiset_ensures();
    assert(a.remove(0) =~= b);
    assert(a.to_multiset().remove(s[i]) =~= b.to_multiset());
    assert(a[0] == s[i]);
    assert(a.contains(s[i]));
    assert(a.to_multiset().count(s[i]) > 0);
}

/// The generalised induction behind `lemma_load_preserves_entries`.
proof fn lemma_load_from_multiset(src: Seq<LanguageEntryView>, i: int, acc: Seq<LanguageEntryView>)
    requires
        0 <= i <= src.len(),
    ensures
        match spec_load_from(src, i, acc) {
            Ok(s) => s.to_multiset() == acc.to_multiset().add(
                src.subrange(i, src.len() as int).to_multiset(),
            ),
            Err(_) => true,
        },
    decreases src.len() - i,
{
    if i >= src.len() {
        src.subrange(i, src.len() as int).to_multiset_ensures();
        assert(src.subrange(i, src.len() as int) =~= Seq::<LanguageEntryView>::empty());
        assert(src.subrange(i, src.len() as int).to_multiset().len() == 0);
        assert(src.subrange(i, src.len() as int).to_multiset() =~= Multiset::empty());
        assert(acc.to_multiset().add(Multiset::empty()) =~= acc.to_multiset());
    } else {
        if first_invalid_glob_from(src[i].language.globs, 0) is None && !has_key(acc, src[i].key) {
            let p = insert_pos_from(acc, src[i].key, 0);
            lemma_insert_pos(acc, src[i].key, 0);
            let acc2 = acc.insert(p, src[i]);
            lemma_load_from_multiset(src, i + 1, acc2);
            lemma_insert_to_multiset(acc, p, src[i]);
            lemma_skip_one_to_multiset(src, i);
            match spec_load_from(src, i + 1, acc2) {
                Ok(s) => {
                    assert(s.to_multiset() == acc2.to_multiset().add(
                        src.subrange(i + 1, src.len() as int).to_multiset(),
                    ));
                    assert(acc2.to_multiset().add(
                        src.subrange(i + 1, src.len() as int).to_multiset(),
                    ) =~= acc.to_multiset().add(
                        src.subrange(i, src.len() as int).to_multiset(),
                    ));
                },
                Err(_) => {},
            }
        }
    }
}

/// Loading loses and invents nothing: a registry built successfully
/// holds exactly the entries it was given, merely rearranged into
/// ascending key order.
pub proof fn lemma_load_preserves_entries(src: Seq<LanguageEntryView>)
    ensures
        match spec_load(src) {
            Ok(s) => s.to_multiset() == src.to_multiset(),
            Err(_) => true,
        },
{
    lemma_load_from_multiset(src, 0, Seq::empty());
    match spec_load(src) {
        Ok(s) => {
            Seq::<LanguageEntryView>::empty().to_multiset_ensures();
            assert(Seq::<LanguageEntryView>::empty().to_multiset() =~= Multiset::empty());
            assert(src.subrange(0, src.len() as int) =~= src);
            assert(Multiset::empty().add(src.to_multiset()) =~= src.to_multiset());
        },
        Err(_) => {},
    }
}

/// Copy a vector of strings.
fn clone_strings(v: &Vec<String>) -> (r: Vec<String>)
    ensures
        r@ == v@,
{
    let mut r: Vec<String> = Vec::new();
    let mut i: usize = 0;
    while i < v.len()
        invariant
            i <= v@.len(),
            r@.len() == i,
            forall|j: int| 0 <= j < i ==> r@[j] == v@[j],
        decreases v@.len() - i,
    {
        r.push(v[i].clone());
        i += 1;
    }
    proof {
        assert(r@ =~= v@);
    }
    r
}

/// Copy a registry entry.
fn clone_entry(e: &LanguageEntry) -> (r: LanguageEntry)
    ensures
        r@ == e@,
{
    let r = LanguageEntry {
        key: e.key.clone(),
        language: Language {
            name: e.language.name.clone(),
            globs: clone_strings(&e.language.globs),
            interpreters: clone_strings(&e.language.interpreters),
        },
    };
    proof {
        assert(r@ =~= e@);
    }
    r
}

/// The position at which an entry keyed `key` belongs in `result`.
fn find_insert_pos(result: &Vec<LanguageEntry>, key: &str) -> (r: usize)
    ensures
        r == insert_pos_from(result.deep_view(), key@, 0),
        r <= result@.len(),
{
    let mut p: usize = 0;
    while p < result.len()
        invariant
            p <= result@.len(),
            insert_pos_from(result.deep_view(), key@, 0) == insert_pos_from(
                result.deep_view(),
                key@,
                p as int,
            ),
        decreases result@.len() - p,
    {
        if !str_lt(result[p].key.as_str(), key) {
            assert(!lex_lt(result.deep_view()[p as int].key, key@));
            return p;
        }
        assert(lex_lt(result.deep_view()[p as int].key, key@));
        p += 1;
    }
    p
}

/// Build the registry from raw entries: every glob pattern must compile,
/// every key must be fresh, and the definitions are placed in ascending
/// key order.  The first defect found is the error returned; a registry
/// built successfully holds exactly the entries given, rearranged.
pub fn load(entries: &Vec<LanguageEntry>) -> (r: Result<Languages, LoadError>)
    ensures
        match spec_load(entries.deep_view()) {
            Ok(s) => r matches Ok(ls) && ls@ == s && sorted_by_key(ls@),
            Err(e) => r matches Err(le) && le@ == e,
        },
        r matches Ok(ls) ==> ls@.to_multiset() == entries.deep_view().to_multiset(),
{
    let ghost src = entries.deep_view();
    let mut result: Vec<LanguageEntry> = Vec::new();
    proof {
        assert(result.deep_view() =~= Seq::<LanguageEntryView>::empty());
    }
    let mut i: usize = 0;
    while i < entries.len()
        invariant
            i <= entries@.len(),
            src == entries.deep_view(),
            sorted_by_key(result.deep_view()),
            spec_load(src) == spec_load_from(src, i as int, result.deep_view()),
        decreases entries@.len() - i,
    {
        let entry = &entries[i];
        assert(entry@ == src[i as int]);
        let mut g: usize = 0;
        while g < entry.language.globs.len()
            invariant
                g <= entry.language.globs@.len(),
                entry@ == src[i as int],
                0 <= i < src.len(),
                src == entries.deep_view(),
                spec_load(src) == spec_load_from(src, i as int, result.deep_view()),
                first_invalid_glob_from(src[i as int].language.globs, 0)
                    == first_invalid_glob_from(src[i as int].language.globs, g as int),
            decreases entry.language.globs@.len() - g,
        {
            if !glob_pattern_valid(entry.language.globs[g].as_str()) {
                assert(first_invalid_glob_from(src[i as int].language.globs, 0) matches Some(p)
                    && p == src[i as int].language.globs[g as int]);
                return Err(LoadError::InvalidGlob(entry.language.globs[g].clone()));
            }
            g += 1;
        }
        assert(first_invalid_glob_from(src[i as int].language.globs, 0) is None);
        let key = entry.key.as_str();
        let ghost acc = result.deep_view();
        let p = find_insert_pos(&result, key);
        proof {
            lemma_insert_pos(acc, key@, 0);
        }
        if p < result.len() && str_eq(result[p].key.as_str(), key) {
            assert(has_key(acc, src[i as int].key));
            return Err(LoadError::DuplicateKey(entry.key.clone()));
        }
        proof {
            assert forall|j: int| 0 <= j < acc.len() implies acc[j].key != key@ by {
                if acc[j].key == key@ {
                    if j < p {
                        lemma_lex_lt_irrefl(key@, 0);
                    } else if j == p {
                        assert(false);
                    } else {
                        assert(lex_lt(acc[p as int].key, acc[j].key));
                    }
                }
            }
            assert(!has_key(acc, src[i as int].key));
        }
        let cloned = clone_entry(entry);
        result.insert(p, cloned);
        proof {
            acc.insert_ensures(p as int, src[i as int]);
            assert(result.deep_view() =~= acc.insert(p as int, src[i as int]));
            lemma_sorted_insert(acc, src[i as int]);
        }
        i += 1;
    }
    proof {
        lemma_load_preserves_entries(src);
    }
    Ok(Languages { languages: result })
}

} // verus!
