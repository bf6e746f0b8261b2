//! Resolution of the configuration tree into per-language build jobs.
//!
//! The tree holds one primary book under `book`, optional translation
//! entries under `output.i18n.translations`, shared renderer options under
//! `output.html`, and build settings under `build`.  Resolution validates
//! the tree and produces one self-contained job per language: the primary
//! book first, then one job per well-formed translation entry, in input
//! order.
//!
//! Policy for malformed translation entries: an entry whose `language` or
//! `title` is missing, not a string, or (for `language`) empty is dropped,
//! and the remaining entries are still resolved.  A translations value that
//! is not an array of tables, a missing primary language, and a duplicated
//! language are fatal.

use crate::value::ConfValue;
use crate::value::lemma_equiv_trans;
use vstd::prelude::*;
use vstd::string::StringExecFns;

verus! {

/// Book metadata for one language: the fields of the primary book section
/// or of one translation entry, after validation and defaulting.
#[derive(Debug, PartialEq)]
pub struct BookMeta {
    pub language: String,
    pub title: String,
    pub authors: Vec<String>,
    /// `None` means the entry listed no translators at all, which is
    /// distinct from an explicit empty list.
    pub translators: Option<Vec<String>>,
    pub description: Option<String>,
    pub src: String,
}

/// The mathematical value of a [`BookMeta`]: every string as a character
/// sequence.
#[verifier::ext_equal]
pub struct BookMetaView {
    pub language: Seq<char>,
    pub title: Seq<char>,
    pub authors: Seq<Seq<char>>,
    pub translators: Option<Seq<Seq<char>>>,
    pub description: Option<Seq<char>>,
    pub src: Seq<char>,
}

impl View for BookMeta {
    type V = BookMetaView;

    open spec fn view(&self) -> BookMetaView {
        BookMetaView {
            language: self.language@,
            title: self.title@,
            authors: self.authors.deep_view(),
            translators: match self.translators {
                Some(ts) => Some(ts.deep_view()),
                None => None,
            },
            description: match self.description {
                Some(d) => Some(d@),
                None => None,
            },
            src: self.src@,
        }
    }
}

/// Build settings inherited by every job.
#[derive(Debug, PartialEq)]
pub struct BuildSettings {
    pub build_dir: String,
}

/// The complete configuration handed to the build engine for one language.
#[derive(Debug, PartialEq)]
pub struct EngineConfig {
    pub book: BookMeta,
    pub build: BuildSettings,
    /// This job's own deep copy of the shared renderer options.
    pub renderer_options: ConfValue,
}

/// One fully resolved build job.
#[derive(Debug, PartialEq)]
pub struct RenderItem {
    pub mdbook_config: EngineConfig,
    pub root: String,
    pub language: String,
}

/// The ordered list of resolved build jobs: the primary book first, then
/// the translations in input order.
#[derive(Debug, PartialEq)]
pub struct RenderConfig(pub Vec<RenderItem>);

/// Why a configuration tree cannot be resolved.
#[derive(Debug, PartialEq)]
pub enum ConfigError {
    /// The translations value is present but is not an array of tables.
    MalformedTranslations,
    /// The named language appears more than once across the primary book
    /// and the translation entries.
    DuplicateLanguage(String),
    /// The primary book has no (non-empty string) language.
    MissingPrimaryLanguage,
}

/// Error of resolving a render context into build jobs.
#[derive(Debug, PartialEq)]
pub struct TryFromRenderContext(pub ConfigError);

impl TryFromRenderContext {
    /// A short description of the error.
    pub fn message(&self) -> (r: String)
        ensures
            match self.0 {
                ConfigError::MalformedTranslations => r@
                    == "translations is not an array of tables"@,
                ConfigError::DuplicateLanguage(l) => r@ == "duplicate language: "@ + l@,
                ConfigError::MissingPrimaryLanguage => r@ == "language for main book not found"@,
            },
    {
        match &self.0 {
            ConfigError::MalformedTranslations => String::from_str(
                "translations is not an array of tables",
            ),
            ConfigError::DuplicateLanguage(l) => {
                let mut s = String::from_str("duplicate language: ");
                s.append(l.as_str());
                s
            },
            ConfigError::MissingPrimaryLanguage => String::from_str(
                "language for main book not found",
            ),
        }
    }
}

/// The input to resolution: the project root and the decoded tree.
#[derive(Debug, PartialEq)]
pub struct RenderInput {
    pub root: String,
    pub config: ConfValue,
}

/// Value at `tree.k1.k2`, when each level is a table holding the key.
pub open spec fn spec_get2(tree: ConfValue, k1: Seq<char>, k2: Seq<char>) -> Option<ConfValue> {
    match tree.spec_get(k1) {
        Some(v) => v.spec_get(k2),
        None => None,
    }
}

/// Value at `tree.k1.k2.k3`.
pub open spec fn spec_get3(
    tree: ConfValue,
    k1: Seq<char>,
    k2: Seq<char>,
    k3: Seq<char>,
) -> Option<ConfValue> {
    match spec_get2(tree, k1, k2) {
        Some(v) => v.spec_get(k3),
        None => None,
    }
}

/// The character sequence held by an optional string node.
pub open spec fn spec_as_str(v: Option<ConfValue>) -> Option<Seq<char>> {
    match v {
        Some(ConfValue::Str(s)) => Some(s@),
        _ => None,
    }
}

/// The strings of an array, in order, non-string elements dropped.
pub open spec fn spec_string_items(items: Seq<ConfValue>) -> Seq<Seq<char>>
    decreases items.len(),
{
    if items.len() == 0 {
        Seq::empty()
    } else {
        let rest = spec_string_items(items.drop_last());
        match items.last() {
            ConfValue::Str(s) => rest.push(s@),
            _ => rest,
        }
    }
}

/// The author list of a book table: its `authors` array's strings, or empty
/// when the key is absent or not an array.
pub open spec fn spec_authors(v: ConfValue) -> Seq<Seq<char>> {
    match v.spec_get("authors"@) {
        Some(ConfValue::Array(items)) => spec_string_items(items@),
        _ => Seq::empty(),
    }
}

/// The translator list of a book table; `None` when the key is absent or
/// not an array.
pub open spec fn spec_translators(v: ConfValue) -> Option<Seq<Seq<char>>> {
    match v.spec_get("translators"@) {
        Some(ConfValue::Array(items)) => Some(spec_string_items(items@)),
        _ => None,
    }
}

/// One translation entry parsed from its table, or `None` for a malformed
/// entry (missing or non-string `language` or `title`, or empty
/// `language`), which resolution drops.  A missing or non-string `src`
/// defaults to `translations/<language>`.
pub open spec fn spec_parse_entry(v: ConfValue) -> Option<BookMetaView> {
    let lang = spec_as_str(v.spec_get("language"@));
    let title = spec_as_str(v.spec_get("title"@));
    if lang is Some && lang->0.len() > 0 && title is Some {
        Some(
            BookMetaView {
                language: lang->0,
                title: title->0,
                authors: spec_authors(v),
                translators: spec_translators(v),
                description: spec_as_str(v.spec_get("description"@)),
                src: match spec_as_str(v.spec_get("src"@)) {
                    Some(s) => s,
                    None => "translations/"@ + lang->0,
                },
            },
        )
    } else {
        None
    }
}

/// The well-formed translation entries of `tables`, in input order.
pub open spec fn spec_entries(tables: Seq<ConfValue>) -> Seq<BookMetaView>
    decreases tables.len(),
{
    if tables.len() == 0 {
        Seq::empty()
    } else {
        let rest = spec_entries(tables.drop_last());
        match spec_parse_entry(tables.last()) {
            Some(e) => rest.push(e),
            None => rest,
        }
    }
}

/// The primary book's language: `book.language`, when it is a non-empty
/// string.
pub open spec fn spec_primary_language(tree: ConfValue) -> Option<Seq<char>> {
    match spec_as_str(spec_get2(tree, "book"@, "language"@)) {
        Some(l) => if l.len() > 0 {
            Some(l)
        } else {
            None
        },
        None => None,
    }
}

/// The primary book's metadata, meaningful when its language is present.
/// Unlike a translation entry, its `title` defaults to empty and its `src`
/// defaults to the engine's own `src` directory.
pub open spec fn spec_primary_book(tree: ConfValue) -> BookMetaView {
    let book = match tree.spec_get("book"@) {
        Some(b) => b,
        None => ConfValue::Bool(false),
    };
    BookMetaView {
        language: spec_primary_language(tree)->0,
        title: match spec_as_str(book.spec_get("title"@)) {
            Some(t) => t,
            None => Seq::empty(),
        },
        authors: spec_authors(book),
        translators: spec_translators(book),
        description: spec_as_str(book.spec_get("description"@)),
        src: match spec_as_str(book.spec_get("src"@)) {
            Some(s) => s,
            None => "src"@,
        },
    }
}

/// The raw translations value, at `output.i18n.translations`.
pub open spec fn spec_translations_value(tree: ConfValue) -> Option<ConfValue> {
    spec_get3(tree, "output"@, "i18n"@, "translations"@)
}

/// Whether the translations value, if present, is an array of tables.
pub open spec fn spec_translations_wellformed(tree: ConfValue) -> bool {
    match spec_translations_value(tree) {
        None => true,
        Some(v) => v matches ConfValue::Array(items) && (forall|i: int|
            0 <= i < items@.len() ==> (#[trigger] items@[i]) is Table),
    }
}

/// The translation tables of the tree; empty when the value is absent.
pub open spec fn spec_translation_tables(tree: ConfValue) -> Seq<ConfValue> {
    match spec_translations_value(tree) {
        Some(ConfValue::Array(items)) => items@,
        _ => Seq::empty(),
    }
}

/// The shared renderer options, at `output.html`; passed through verbatim.
pub open spec fn spec_renderer_options(tree: ConfValue) -> Option<ConfValue> {
    spec_get2(tree, "output"@, "html"@)
}

/// The configured output base directory, `build.build-dir`, defaulting to
/// the engine's `book` directory.
pub open spec fn spec_build_dir(tree: ConfValue) -> Seq<char> {
    match spec_as_str(spec_get2(tree, "build"@, "build-dir"@)) {
        Some(s) => s,
        None => "book"@,
    }
}

/// The views of a sequence of strings.
pub open spec fn strs_view(ss: Seq<String>) -> Seq<Seq<char>> {
    ss.map_values(|s: String| s@)
}

/// The views of a sequence of book metadata records.
pub open spec fn metas_view(ms: Seq<BookMeta>) -> Seq<BookMetaView> {
    ms.map_values(|m: BookMeta| m@)
}

/// Every language of the resolved set: the primary first, then each
/// well-formed translation entry's, in input order.
pub open spec fn spec_languages(tree: ConfValue) -> Seq<Seq<char>> {
    seq![spec_primary_language(tree)->0] + spec_entries(spec_translation_tables(tree)).map_values(
        |e: BookMetaView| e.language,
    )
}

/// The first language that also appears later in the sequence.
pub open spec fn spec_first_duplicate(langs: Seq<Seq<char>>) -> Option<Seq<char>>
    decreases langs.len(),
{
    if langs.len() == 0 {
        None
    } else if langs.drop_first().contains(langs[0]) {
        Some(langs[0])
    } else {
        spec_first_duplicate(langs.drop_first())
    }
}

/// A sequence with no first duplicate is pairwise distinct.
pub proof fn lemma_no_duplicate_distinct(langs: Seq<Seq<char>>)
    requires
        spec_first_duplicate(langs) is None,
    ensures
        forall|i: int, j: int| 0 <= i < j < langs.len() ==> langs[i] != langs[j],
    decreases langs.len(),
{
    if langs.len() > 0 {
        lemma_no_duplicate_distinct(langs.drop_first());
        assert forall|i: int, j: int| 0 <= i < j < langs.len() implies langs[i] != langs[j] by {
            if i == 0 {
                assert(langs.drop_first()[j - 1] == langs[j]);
                if langs[0] == langs[j] {
                    assert(langs.drop_first().contains(langs[0]));
                }
            } else {
                assert(langs.drop_first()[i - 1] == langs[i]);
                assert(langs.drop_first()[j - 1] == langs[j]);
            }
        }
    }
}

/// The output directory of one language's job: the configured base, then
/// the shared `html` segment, then the language.
pub open spec fn spec_out_dir(build_dir: Seq<char>, language: Seq<char>) -> Seq<char> {
    build_dir + "/html/"@ + language
}

/// Distinct languages get distinct output directories.
pub proof fn lemma_out_dir_injective(build_dir: Seq<char>, l1: Seq<char>, l2: Seq<char>)
    requires
        l1 != l2,
    ensures
        spec_out_dir(build_dir, l1) != spec_out_dir(build_dir, l2),
{
    let d1 = spec_out_dir(build_dir, l1);
    let d2 = spec_out_dir(build_dir, l2);
    if d1 == d2 {
        let p: nat = build_dir.len() + "/html/"@.len();
        assert(d1.len() == build_dir.len() + "/html/"@.len() + l1.len());
        assert(d2.len() == build_dir.len() + "/html/"@.len() + l2.len());
        assert(l1.len() == l2.len());
        assert forall|k: int| 0 <= k < l1.len() implies l1[k] == l2[k] by {
            assert(d1[p + k] == l1[k]);
            assert(d2[p + k] == l2[k]);
        }
        assert(l1 =~= l2);
    }
}

/// Law: every output directory ends in `/` followed by its own language.
pub proof fn lemma_out_dir_ends_with_language(build_dir: Seq<char>, language: Seq<char>)
    ensures
        spec_out_dir(build_dir, language).len() == build_dir.len() + 6 + language.len(),
        spec_out_dir(build_dir, language).subrange(
            build_dir.len() + 5 as int,
            build_dir.len() + 6 + language.len() as int,
        ) == seq!['/'] + language,
{
    reveal_strlit("/html/");
    let d = spec_out_dir(build_dir, language);
    assert(d.subrange(build_dir.len() + 5 as int, build_dir.len() + 6 + language.len() as int)
        =~= seq!['/'] + language);
}

/// Law: a translation entry that carries no `src` string resolves to the
/// source path `translations/<language>`.
pub proof fn lemma_default_src(v: ConfValue)
    requires
        spec_parse_entry(v) is Some,
        spec_as_str(v.spec_get("src"@)) is None,
    ensures
        spec_parse_entry(v)->0.src == "translations/"@ + spec_parse_entry(v)->0.language,
{
}

fn lookup2<'a>(tree: &'a ConfValue, k1: &String, k2: &String) -> (r: Option<&'a ConfValue>)
    ensures
        match r {
            Some(v) => spec_get2(*tree, k1@, k2@) == Some(*v),
            None => spec_get2(*tree, k1@, k2@) is None,
        },
{
    match tree.get(k1) {
        Some(v) => v.get(k2),
        None => None,
    }
}

fn get_string(v: &ConfValue, key: &String) -> (r: Option<String>)
    ensures
        match r {
            Some(s) => spec_as_str(v.spec_get(key@)) == Some(s@),
            None => spec_as_str(v.spec_get(key@)) is None,
        },
{
    match v.get(key) {
        Some(val) => match val {
            ConfValue::Str(s) => Some(s.clone()),
            _ => None,
        },
        None => None,
    }
}

fn string_items(items: &Vec<ConfValue>) -> (r: Vec<String>)
    ensures
        r.deep_view() == spec_string_items(items@),
{
    let n: usize = items.len();
    let mut out: Vec<String> = Vec::new();
    let mut i: usize = 0;
    proof {
        assert(items@.take(0) =~= Seq::<ConfValue>::empty());
        assert(out.deep_view() =~= spec_string_items(items@.take(0)));
    }
    while i < n
        invariant
            n == items@.len(),
            i <= n,
            out.deep_view() == spec_string_items(items@.take(i as int)),
        decreases n - i,
    {
        let ghost prev = out.deep_view();
        proof {
            assert(items@.take(i as int + 1).drop_last() =~= items@.take(i as int));
            assert(items@.take(i as int + 1).last() == items@[i as int]);
        }
        match &items[i] {
            ConfValue::Str(s) => {
                out.push(s.clone());
                proof {
                    assert(out.deep_view() =~= prev.push(items@[i as int]->Str_0@));
                }
            }
            _ => {}
        }
        i = i + 1;
    }
    proof {
        assert(items@.take(n as int) =~= items@);
    }
    out
}

fn authors_of(v: &ConfValue) -> (r: Vec<String>)
    ensures
        r.deep_view() == spec_authors(*v),
{
    match v.get(&String::from_str("authors")) {
        Some(val) => match val {
            ConfValue::Array(items) => string_items(items),
            _ => {
                let out: Vec<String> = Vec::new();
                proof {
                    assert(out.deep_view() =~= Seq::<Seq<char>>::empty());
                }
                out
            },
        },
        None => {
            let out: Vec<String> = Vec::new();
            proof {
                assert(out.deep_view() =~= Seq::<Seq<char>>::empty());
            }
            out
        },
    }
}

fn translators_of(v: &ConfValue) -> (r: Option<Vec<String>>)
    ensures
        match r {
            Some(ts) => spec_translators(*v) == Some(ts.deep_view()),
            None => spec_translators(*v) is None,
        },
{
    match v.get(&String::from_str("translators")) {
        Some(val) => match val {
            ConfValue::Array(items) => Some(string_items(items)),
            _ => None,
        },
        None => None,
    }
}

/// Parses one translation entry; `None` drops a malformed entry.
pub fn parse_translation(v: &ConfValue) -> (r: Option<BookMeta>)
    ensures
        match r {
            Some(m) => spec_parse_entry(*v) == Some(m@),
            None => spec_parse_entry(*v) is None,
        },
{
    let language = match get_string(v, &String::from_str("language")) {
        Some(s) => s,
        None => {
            return None;
        },
    };
    if language.as_str().is_empty() {
        return None;
    }
    let title = match get_string(v, &String::from_str("title")) {
        Some(s) => s,
        None => {
            return None;
        },
    };
    let authors = authors_of(v);
    let translators = translators_of(v);
    let description = get_string(v, &String::from_str("description"));
    let src = match get_string(v, &String::from_str("src")) {
        Some(s) => s,
        None => {
            let mut s = String::from_str("translations/");
            s.append(language.as_str());
            s
        },
    };
    Some(BookMeta { language, title, authors, translators, description, src })
}

/// Parses the primary book; `None` means its language is missing, not a
/// string, or empty.
pub fn parse_primary(tree: &ConfValue) -> (r: Option<BookMeta>)
    ensures
        match r {
            Some(m) => spec_primary_language(*tree) is Some && m@ == spec_primary_book(*tree),
            None => spec_primary_language(*tree) is None,
        },
{
    let book = match tree.get(&String::from_str("book")) {
        Some(b) => b,
        None => {
            return None;
        },
    };
    let language = match get_string(book, &String::from_str("language")) {
        Some(s) => s,
        None => {
            return None;
        },
    };
    if language.as_str().is_empty() {
        return None;
    }
    let title = match get_string(book, &String::from_str("title")) {
        Some(s) => s,
        None => String::new(),
    };
    let authors = authors_of(book);
    let translators = translators_of(book);
    let description = get_string(book, &String::from_str("description"));
    let src = match get_string(book, &String::from_str("src")) {
        Some(s) => s,
        None => String::from_str("src"),
    };
    Some(BookMeta { language, title, authors, translators, description, src })
}

fn clone_strings(v: &Vec<String>) -> (r: Vec<String>)
    ensures
        r.deep_view() == v.deep_view(),
        r@.len() == v@.len(),
{
    let n: usize = v.len();
    let mut out: Vec<String> = Vec::new();
    let mut i: usize = 0;
    while i < n
        invariant
            n == v@.len(),
            i <= n,
            out@.len() == i as int,
            forall|k: int| 0 <= k < i as int ==> (#[trigger] out@[k])@ == v@[k]@,
        decreases n - i,
    {
        out.push(v[i].clone());
        i = i + 1;
    }
    proof {
        assert(out.deep_view() =~= v.deep_view());
    }
    out
}

impl Clone for BookMeta {
    /// A copy whose view equals the original's.
    fn clone(&self) -> (r: BookMeta)
        ensures
            r@ == self@,
    {
        let r = BookMeta {
            language: self.language.clone(),
            title: self.title.clone(),
            authors: clone_strings(&self.authors),
            translators: match &self.translators {
                Some(ts) => Some(clone_strings(ts)),
                None => None,
            },
            description: match &self.description {
                Some(d) => Some(d.clone()),
                None => None,
            },
            src: self.src.clone(),
        };
        proof {
            assert(r@ =~= self@);
        }
        r
    }
}

fn parse_entries(tables: &Vec<ConfValue>) -> (r: Vec<BookMeta>)
    ensures
        metas_view(r@) == spec_entries(tables@),
{
    let n: usize = tables.len();
    let mut out: Vec<BookMeta> = Vec::new();
    let mut i: usize = 0;
    proof {
        assert(tables@.take(0) =~= Seq::<ConfValue>::empty());
        assert(metas_view(out@) =~= spec_entries(tables@.take(0)));
    }
    while i < n
        invariant
            n == tables@.len(),
            i <= n,
            metas_view(out@) == spec_entries(tables@.take(i as int)),
        decreases n - i,
    {
        let ghost prev = out@;
        proof {
            assert(tables@.take(i as int + 1).drop_last() =~= tables@.take(i as int));
            assert(tables@.take(i as int + 1).last() == tables@[i as int]);
        }
        match parse_translation(&tables[i]) {
            Some(m) => {
                out.push(m);
                proof {
                    assert(metas_view(out@) =~= metas_view(prev).push(
                        spec_parse_entry(tables@[i as int])->0,
                    ));
                }
            }
            None => {}
        }
        i = i + 1;
    }
    proof {
        assert(tables@.take(n as int) =~= tables@);
    }
    out
}

fn find_duplicate(langs: &Vec<String>) -> (r: Option<String>)
    ensures
        match r {
            Some(s) => spec_first_duplicate(strs_view(langs@)) == Some(s@),
            None => spec_first_duplicate(strs_view(langs@)) is None,
        },
{
    let ghost v = strs_view(langs@);
    let n: usize = langs.len();
    let mut i: usize = 0;
    proof {
        assert(v.skip(0) =~= v);
    }
    while i < n
        invariant
            n == langs@.len(),
            v == strs_view(langs@),
            i <= n,
            spec_first_duplicate(v) == spec_first_duplicate(v.skip(i as int)),
        decreases n - i,
    {
        let mut j: usize = i + 1;
        while j < n
            invariant
                n == langs@.len(),
                v == strs_view(langs@),
                i < n,
                i + 1 <= j <= n,
                spec_first_duplicate(v) == spec_first_duplicate(v.skip(i as int)),
                forall|k: int| i < k < j ==> v[k] != v[i as int],
            decreases n - j,
        {
            proof {
                assert(v[j as int] == langs@[j as int]@);
                assert(v[i as int] == langs@[i as int]@);
            }
            if langs[j] == langs[i] {
                proof {
                    assert(v.skip(i as int)[0] == v[i as int]);
                    assert(v.skip(i as int).drop_first() =~= v.skip(i as int + 1));
                    assert(v.skip(i as int + 1)[j - i - 1] == v[j as int]);
                    assert(v.skip(i as int + 1).contains(v[i as int]));
                }
                return Some(langs[i].clone());
            }
            j = j + 1;
        }
        proof {
            assert(v.skip(i as int)[0] == v[i as int]);
            assert(v.skip(i as int).drop_first() =~= v.skip(i as int + 1));
            if v.skip(i as int + 1).contains(v[i as int]) {
                let k: int = choose|k: int|
                    0 <= k < v.skip(i as int + 1).len() && #[trigger] v.skip(i as int + 1)[k]
                        == v[i as int];
                assert(v[k + i + 1] == v[i as int]);
                assert(false);
            }
        }
        i = i + 1;
    }
    proof {
        assert(v.skip(n as int) =~= Seq::<Seq<char>>::empty());
    }
    None
}

impl RenderItem {
    /// Builds one job: the book's metadata, the shared build settings with
    /// the output directory extended by the `html` segment and the
    /// language, the shared project root, and this job's own copy of the
    /// renderer options.
    pub fn from(
        book: BookMeta,
        build: BuildSettings,
        root: String,
        rest: ConfValue,
        language: String,
    ) -> (r: RenderItem)
        ensures
            r.mdbook_config.book == book,
            r.mdbook_config.build.build_dir@ == spec_out_dir(build.build_dir@, language@),
            r.mdbook_config.renderer_options == rest,
            r.root == root,
            r.language == language,
    {
        let mut build_dir = build.build_dir;
        build_dir.append("/html/");
        build_dir.append(language.as_str());
        RenderItem {
            mdbook_config: EngineConfig {
                book,
                build: BuildSettings { build_dir },
                renderer_options: rest,
            },
            root,
            language,
        }
    }
}

/// How one resolved job relates to the tree it came from: its language,
/// root, metadata, derived output directory, and its own equivalent copy
/// of the shared renderer options.
pub open spec fn spec_item_matches(
    item: RenderItem,
    book: BookMetaView,
    tree: ConfValue,
    root: Seq<char>,
) -> bool {
    &&& item.language@ == book.language
    &&& item.root@ == root
    &&& item.mdbook_config.book@ == book
    &&& item.mdbook_config.build.build_dir@ == spec_out_dir(spec_build_dir(tree), book.language)
    &&& (match spec_renderer_options(tree) {
        Some(v) => item.mdbook_config.renderer_options.equiv(v),
        None => item.mdbook_config.renderer_options.is_empty_table(),
    })
}

/// How a resolved set relates to its tree: one job per well-formed
/// translation entry plus the primary book, the primary first, the
/// translations in input order.
pub open spec fn spec_resolved(rc: RenderConfig, tree: ConfValue, root: Seq<char>) -> bool {
    let entries = spec_entries(spec_translation_tables(tree));
    &&& rc.0@.len() == entries.len() + 1
    &&& spec_item_matches(rc.0@[0], spec_primary_book(tree), tree, root)
    &&& (forall|i: int|
        1 <= i <= entries.len() ==> spec_item_matches(
            #[trigger] rc.0@[i],
            entries[i - 1],
            tree,
            root,
        ))
}

/// Law: a resolved set for a tree with no translations value holds exactly
/// one job, the primary book's, with its own copy of the shared renderer
/// options.
pub proof fn lemma_primary_only_single(rc: RenderConfig, tree: ConfValue, root: Seq<char>)
    requires
        spec_resolved(rc, tree, root),
        spec_translations_value(tree) is None,
    ensures
        rc.0@.len() == 1,
        spec_item_matches(rc.0@[0], spec_primary_book(tree), tree, root),
{
    assert(spec_translation_tables(tree) =~= Seq::<ConfValue>::empty());
}

impl RenderConfig {
    /// Resolves the decoded render context into the ordered build jobs.
    ///
    /// Fails with `MalformedTranslations` exactly when the translations
    /// value is present but not an array of tables, else with
    /// `MissingPrimaryLanguage` exactly when the primary book lacks a
    /// non-empty string language, else with `DuplicateLanguage` exactly
    /// when a language repeats across the primary book and the well-formed
    /// translation entries.  Otherwise the result satisfies
    /// [`spec_resolved`], and all output directories are pairwise
    /// distinct.
    pub fn try_from(input: RenderInput) -> (r: Result<RenderConfig, TryFromRenderContext>)
        ensures
            (r is Err) == (!spec_translations_wellformed(input.config) || spec_primary_language(
                input.config,
            ) is None || spec_first_duplicate(spec_languages(input.config)) is Some),
            r matches Err(e) ==> match e.0 {
                ConfigError::MalformedTranslations => !spec_translations_wellformed(input.config),
                ConfigError::MissingPrimaryLanguage => spec_translations_wellformed(input.config)
                    && spec_primary_language(input.config) is None,
                ConfigError::DuplicateLanguage(l) => spec_translations_wellformed(input.config)
                    && spec_primary_language(input.config) is Some && spec_first_duplicate(
                    spec_languages(input.config),
                ) == Some(l@),
            },
            r matches Ok(rc) ==> spec_resolved(rc, input.config, input.root@),
            r matches Ok(rc) ==> forall|a: int, b: int|
                #![trigger rc.0@[a], rc.0@[b]]
                0 <= a < rc.0@.len() && 0 <= b < rc.0@.len() && a != b
                    ==> rc.0@[a].mdbook_config.build.build_dir@
                    != rc.0@[b].mdbook_config.build.build_dir@,
    {
        let RenderInput { root, config } = input;
        // Shared renderer options: whatever sits at output.html, else an
        // empty table.
        let options: ConfValue = match lookup2(
            &config,
            &String::from_str("output"),
            &String::from_str("html"),
        ) {
            Some(v) => v.clone(),
            None => ConfValue::Table(Vec::new()),
        };
        proof {
            match spec_renderer_options(config) {
                Some(v) => assert(options.equiv(v)),
                None => assert(options.is_empty_table()),
            }
        }
        // The translations array: absent is fine; present but not an array
        // of tables is fatal.
        let empty_tables: Vec<ConfValue> = Vec::new();
        let translations: Option<&ConfValue> = match lookup2(
            &config,
            &String::from_str("output"),
            &String::from_str("i18n"),
        ) {
            Some(i18n) => i18n.get(&String::from_str("translations")),
            None => None,
        };
        let tables: &Vec<ConfValue>;
        match translations {
            None => {
                tables = &empty_tables;
                proof {
                    assert(tables@ =~= spec_translation_tables(config));
                }
            },
            Some(v) => match v {
                ConfValue::Array(items) => {
                    let n: usize = items.len();
                    let mut i: usize = 0;
                    while i < n
                        invariant
                            n == items@.len(),
                            i <= n,
                            config == input.config,
                            spec_translations_value(config) == Some(ConfValue::Array(*items)),
                            forall|k: int| 0 <= k < i as int ==> (#[trigger] items@[k]) is Table,
                        decreases n - i,
                    {
                        match &items[i] {
                            ConfValue::Table(_) => {},
                            _ => {
                                proof {
                                    assert(!(items@[i as int] is Table));
                                    assert(!spec_translations_wellformed(config));
                                }
                                return Err(
                                    TryFromRenderContext(ConfigError::MalformedTranslations),
                                );
                            },
                        }
                        i = i + 1;
                    }
                    tables = items;
                },
                _ => {
                    return Err(TryFromRenderContext(ConfigError::MalformedTranslations));
                },
            },
        }
        // Per-language metadata: malformed entries are dropped.
        let entries: Vec<BookMeta> = parse_entries(tables);
        let primary: BookMeta = match parse_primary(&config) {
            Some(m) => m,
            None => {
                return Err(TryFromRenderContext(ConfigError::MissingPrimaryLanguage));
            },
        };
        // Language uniqueness across the primary book and every entry.
        let n_entries: usize = entries.len();
        let mut langs: Vec<String> = Vec::new();
        langs.push(primary.language.clone());
        let mut i: usize = 0;
        while i < n_entries
            invariant
                n_entries == entries@.len(),
                i <= n_entries,
                langs@.len() == i as int + 1,
                langs@[0]@ == spec_primary_language(config)->0,
                metas_view(entries@) == spec_entries(spec_translation_tables(config)),
                spec_primary_language(config) is Some,
                primary@ == spec_primary_book(config),
                forall|k: int|
                    1 <= k < langs@.len() ==> (#[trigger] langs@[k])@ == spec_entries(
                        spec_translation_tables(config),
                    )[k - 1].language,
            decreases n_entries - i,
        {
            proof {
                assert(metas_view(entries@)[i as int] == entries@[i as int]@);
            }
            langs.push(entries[i].language.clone());
            i = i + 1;
        }
        proof {
            assert(strs_view(langs@) =~= spec_languages(config));
        }
        if let Some(d) = find_duplicate(&langs) {
            return Err(TryFromRenderContext(ConfigError::DuplicateLanguage(d)));
        }
        // Build settings: the configured output base, else the engine
        // default.
        let build_dir: String = match lookup2(
            &config,
            &String::from_str("build"),
            &String::from_str("build-dir"),
        ) {
            Some(v) => match v {
                ConfValue::Str(s) => s.clone(),
                _ => String::from_str("book"),
            },
            None => String::from_str("book"),
        };
        proof {
            assert(build_dir@ == spec_build_dir(config));
        }
        // One job per language: the primary book first.
        let lang0 = primary.language.clone();
        let mut items_out: Vec<RenderItem> = Vec::new();
        items_out.push(
            RenderItem::from(
                primary,
                BuildSettings { build_dir: build_dir.clone() },
                root.clone(),
                options.clone(),
                lang0,
            ),
        );
        proof {
            match spec_renderer_options(config) {
                Some(v) => {
                    lemma_equiv_trans(
                        items_out@[0].mdbook_config.renderer_options,
                        options,
                        v,
                    );
                },
                None => {},
            }
            assert(spec_item_matches(
                items_out@[0],
                spec_primary_book(config),
                config,
                root@,
            ));
        }
        let mut i: usize = 0;
        while i < n_entries
            invariant
                n_entries == entries@.len(),
                i <= n_entries,
                items_out@.len() == i as int + 1,
                metas_view(entries@) == spec_entries(spec_translation_tables(config)),
                build_dir@ == spec_build_dir(config),
                root@ == input.root@,
                (match spec_renderer_options(config) {
                    Some(v) => options.equiv(v),
                    None => options.is_empty_table(),
                }),
                spec_item_matches(items_out@[0], spec_primary_book(config), config, root@),
                forall|k: int|
                    1 <= k < items_out@.len() ==> spec_item_matches(
                        #[trigger] items_out@[k],
                        spec_entries(spec_translation_tables(config))[k - 1],
                        config,
                        root@,
                    ),
            decreases n_entries - i,
        {
            proof {
                assert(metas_view(entries@)[i as int] == entries@[i as int]@);
            }
            let meta = entries[i].clone();
            let lang = entries[i].language.clone();
            items_out.push(
                RenderItem::from(
                    meta,
                    BuildSettings { build_dir: build_dir.clone() },
                    root.clone(),
                    options.clone(),
                    lang,
                ),
            );
            proof {
                match spec_renderer_options(config) {
                    Some(v) => {
                        lemma_equiv_trans(
                            items_out@[i as int + 1].mdbook_config.renderer_options,
                            options,
                            v,
                        );
                    },
                    None => {},
                }
                assert(spec_item_matches(
                    items_out@[i as int + 1],
                    spec_entries(spec_translation_tables(config))[i as int],
                    config,
                    root@,
                ));
            }
            i = i + 1;
        }
        let result = RenderConfig(items_out);
        proof {
            let entries_v = spec_entries(spec_translation_tables(config));
            let langs_v = spec_languages(config);
            assert(spec_resolved(result, config, root@));
            lemma_no_duplicate_distinct(langs_v);
            assert forall|a: int, b: int|
                #![trigger result.0@[a], result.0@[b]]
                0 <= a < result.0@.len() && 0 <= b < result.0@.len() && a != b
                    implies result.0@[a].mdbook_config.build.build_dir@
                    != result.0@[b].mdbook_config.build.build_dir@ by {
                assert(langs_v.len() == entries_v.len() + 1);
                if a == 0 {
                    assert(result.0@[a].language@ == langs_v[a]);
                } else {
                    assert(spec_item_matches(result.0@[a], entries_v[a - 1], config, root@));
                    assert(langs_v[a] == entries_v[a - 1].language);
                }
                if b == 0 {
                    assert(result.0@[b].language@ == langs_v[b]);
                } else {
                    assert(spec_item_matches(result.0@[b], entries_v[b - 1], config, root@));
                    assert(langs_v[b] == entries_v[b - 1].language);
                }
                if a < b {
                    assert(langs_v[a] != langs_v[b]);
                } else {
                    assert(langs_v[b] != langs_v[a]);
                }
                lemma_out_dir_injective(
                    spec_build_dir(config),
                    result.0@[a].language@,
                    result.0@[b].language@,
                );
            }
        }
        Ok(result)
    }
}

} // verus!
