//! The summary of a project: how many files it has, where they lie, in
//! which languages they are written, how many notes to self they hold.
//!
//! The directory walk is not made here. Whoever makes it asks `allow_entry`
//! which entries to enter, hands each file to `SummaryBuilder::visit_file`,
//! and does what the answer says.

use vstd::prelude::*;
use vstd::slice::slice_to_vec;
use vstd::string::StringSliceAdditionalSpecFns;

use crate::excerpt::{excerpt_of, truncate_text};
use crate::overview::bounded_sum;
use crate::search::{literal_offsets, literal_positions};
use crate::tally::{
    count_name, counts_below, counts_view, descending, lemma_seen_below, lemma_seen_samples,
    lemma_top_counts_keep, samples_below, seen, tallies_are_sound, top_counts, top_tallies, Count,
    Tally,
};
use crate::text::{is_text, texts_of};
use crate::unicode::{lowercase, to_lowercase, to_uppercase, uppercase};

verus! {

/// After this many files the walk stops.
pub const MAX_SCAN_FILES: usize = 5000;

/// How many files of the project are named as samples.
pub const MAX_SAMPLE_FILES: usize = 12;

/// How many files of each directory are named as samples.
pub const MAX_DIRECTORY_SAMPLES: usize = 3;

/// Once this many notes to self were counted, no more files are read for
/// them.
pub const TODO_LIMIT: usize = 200;

/// Files larger than this are not read for notes to self.
pub const TODO_SIZE_LIMIT: u64 = 512 * 1024;

/// How many bytes of a README are kept.
pub const README_LIMIT: usize = 1200;

/// How deep below the root the walk goes.
pub const SUMMARY_DEPTH: usize = 6;

/// How many directories a summary names when nothing else is asked for.
pub const DEFAULT_MAX_DIRECTORIES: usize = 6;

/// How many languages a summary names when nothing else is asked for.
pub const DEFAULT_MAX_LANGUAGES: usize = 6;

/// The name under which files are counted that lie under no directory.
pub const ROOT_NAME: &'static str = "<root>";

/// Whether `name` is one of the directories that are never entered.
pub open spec fn is_ignored_name(name: Seq<u8>) -> bool {
    ||| name == ".git".spec_bytes()
    ||| name == "target".spec_bytes()
    ||| name == "node_modules".spec_bytes()
    ||| name == "venv".spec_bytes()
    ||| name == ".venv".spec_bytes()
    ||| name == "dist".spec_bytes()
    ||| name == "build".spec_bytes()
    ||| name == ".pytest_cache".spec_bytes()
    ||| name == "__pycache__".spec_bytes()
}

/// Whether the walk takes an entry. It leaves out the directories that are
/// never entered and those whose name begins with a dot. An entry whose name
/// cannot be read as text is taken.
pub open spec fn entry_allowed(name: Option<Seq<u8>>, is_dir: bool) -> bool {
    match name {
        Some(n) => !(is_dir && (is_ignored_name(n) || (n.len() > 0 && n[0] == 0x2E))),
        None => true,
    }
}

/// Tells whether the walk takes the entry called `name`.
pub fn allow_entry(name: Option<&[u8]>, is_dir: bool) -> (r: bool)
    ensures
        r == entry_allowed(
            match name {
                Some(n) => Some(n@),
                None => None,
            },
            is_dir,
        ),
{
    match name {
        Some(n) => {
            if !is_dir {
                return true;
            }
            if is_text(n, ".git") || is_text(n, "target") || is_text(n, "node_modules") || is_text(
                n,
                "venv",
            ) || is_text(n, ".venv") || is_text(n, "dist") || is_text(n, "build") || is_text(
                n,
                ".pytest_cache",
            ) || is_text(n, "__pycache__") {
                return false;
            }
            !(n.len() > 0 && n[0] == 0x2E)
        },
        None => true,
    }
}

/// How many notes to self `content` holds: the places where `TODO` stands,
/// and those where `FIXME` stands.
pub open spec fn todo_markers(content: Seq<u8>) -> nat {
    literal_offsets(content, "TODO".spec_bytes(), 0).len() + literal_offsets(
        content,
        "FIXME".spec_bytes(),
        0,
    ).len()
}

/// Counts the places where `marker` stands in `content`.
fn count_marker(content: &[u8], marker: &str) -> (r: usize)
    ensures
        r == literal_offsets(content@, marker.spec_bytes(), 0).len(),
{
    let needle = marker.as_bytes();
    if needle.len() == 0 {
        return 0;
    }
    let found = literal_positions(content, needle);
    proof {
        assert(crate::search::offsets_view(found@).len() == found@.len());
    }
    found.len()
}

/// Counts the notes to self in `content`, as far as the machine can count.
pub fn count_todo_markers(content: &[u8]) -> (r: usize)
    ensures
        r == if todo_markers(content@) > usize::MAX {
            usize::MAX as nat
        } else {
            todo_markers(content@)
        },
{
    let first = count_marker(content, "TODO");
    let second = count_marker(content, "FIXME");
    if second > usize::MAX - first {
        usize::MAX
    } else {
        first + second
    }
}

/// The names under which a README is looked for at the root of a project,
/// in the order in which they are tried.
pub fn readme_candidates() -> (r: Vec<&'static str>)
    ensures
        r@.len() == 4,
        r@[0]@ == "README.md"@,
        r@[1]@ == "README"@,
        r@[2]@ == "readme.md"@,
        r@[3]@ == "Readme.md"@,
{
    let mut names: Vec<&'static str> = Vec::new();
    names.push("README.md");
    names.push("README");
    names.push("readme.md");
    names.push("Readme.md");
    names
}

/// Whether a file of `size` bytes is read for notes to self.
pub fn reads_for_todos(size: u64) -> (r: bool)
    ensures
        r == (size <= TODO_SIZE_LIMIT),
{
    size <= TODO_SIZE_LIMIT
}

/// The part of a README that a summary keeps.
pub fn read_readme_excerpt(content: &[u8]) -> (r: Vec<u8>)
    ensures
        r@ == excerpt_of(content@, README_LIMIT as nat),
{
    truncate_text(content, README_LIMIT).0
}

/// The name of the language that files with the lower-case extension `ext`
/// are written in; for an extension that is not known, the extension in
/// upper case.
pub open spec fn language_name(ext: Seq<u8>) -> Seq<u8> {
    if ext == "rs".spec_bytes() {
        "Rust".spec_bytes()
    } else if ext == "py".spec_bytes() {
        "Python".spec_bytes()
    } else if ext == "ts".spec_bytes() || ext == "tsx".spec_bytes() {
        "TypeScript".spec_bytes()
    } else if ext == "js".spec_bytes() || ext == "jsx".spec_bytes() || ext == "mjs".spec_bytes()
        || ext == "cjs".spec_bytes() {
        "JavaScript".spec_bytes()
    } else if ext == "go".spec_bytes() {
        "Go".spec_bytes()
    } else if ext == "java".spec_bytes() || ext == "kt".spec_bytes() || ext == "kts".spec_bytes() {
        "JVM".spec_bytes()
    } else if ext == "cs".spec_bytes() {
        "C#".spec_bytes()
    } else if ext == "swift".spec_bytes() {
        "Swift".spec_bytes()
    } else if ext == "rb".spec_bytes() {
        "Ruby".spec_bytes()
    } else if ext == "php".spec_bytes() {
        "PHP".spec_bytes()
    } else if ext == "lua".spec_bytes() {
        "Lua".spec_bytes()
    } else if ext == "cpp".spec_bytes() || ext == "cc".spec_bytes() || ext == "cxx".spec_bytes()
        || ext == "h".spec_bytes() || ext == "hpp".spec_bytes() {
        "C/C++".spec_bytes()
    } else if ext == "c".spec_bytes() {
        "C".spec_bytes()
    } else if ext == "dart".spec_bytes() {
        "Dart".spec_bytes()
    } else if ext == "scala".spec_bytes() {
        "Scala".spec_bytes()
    } else if ext == "hs".spec_bytes() {
        "Haskell".spec_bytes()
    } else if ext == "ml".spec_bytes() || ext == "mli".spec_bytes() {
        "OCaml".spec_bytes()
    } else if ext == "ex".spec_bytes() || ext == "exs".spec_bytes() {
        "Elixir".spec_bytes()
    } else if ext == "zig".spec_bytes() {
        "Zig".spec_bytes()
    } else if ext == "sh".spec_bytes() {
        "Shell".spec_bytes()
    } else if ext == "json".spec_bytes() {
        "JSON".spec_bytes()
    } else if ext == "yml".spec_bytes() || ext == "yaml".spec_bytes() {
        "YAML".spec_bytes()
    } else {
        uppercase(ext)
    }
}

/// The text `literal` as bytes.
fn text_of(literal: &str) -> (r: Vec<u8>)
    ensures
        r@ == literal.spec_bytes(),
{
    slice_to_vec(literal.as_bytes())
}

/// Names the language that files with the extension `ext` are written in.
pub fn language_from_extension(ext: &[u8]) -> (r: Vec<u8>)
    ensures
        r@ == language_name(ext@),
{
    if is_text(ext, "rs") {
        text_of("Rust")
    } else if is_text(ext, "py") {
        text_of("Python")
    } else if is_text(ext, "ts") || is_text(ext, "tsx") {
        text_of("TypeScript")
    } else if is_text(ext, "js") || is_text(ext, "jsx") || is_text(ext, "mjs") || is_text(
        ext,
        "cjs",
    ) {
        text_of("JavaScript")
    } else if is_text(ext, "go") {
        text_of("Go")
    } else if is_text(ext, "java") || is_text(ext, "kt") || is_text(ext, "kts") {
        text_of("JVM")
    } else if is_text(ext, "cs") {
        text_of("C#")
    } else if is_text(ext, "swift") {
        text_of("Swift")
    } else if is_text(ext, "rb") {
        text_of("Ruby")
    } else if is_text(ext, "php") {
        text_of("PHP")
    } else if is_text(ext, "lua") {
        text_of("Lua")
    } else if is_text(ext, "cpp") || is_text(ext, "cc") || is_text(ext, "cxx") || is_text(ext, "h")
        || is_text(ext, "hpp") {
        text_of("C/C++")
    } else if is_text(ext, "c") {
        text_of("C")
    } else if is_text(ext, "dart") {
        text_of("Dart")
    } else if is_text(ext, "scala") {
        text_of("Scala")
    } else if is_text(ext, "hs") {
        text_of("Haskell")
    } else if is_text(ext, "ml") || is_text(ext, "mli") {
        text_of("OCaml")
    } else if is_text(ext, "ex") || is_text(ext, "exs") {
        text_of("Elixir")
    } else if is_text(ext, "zig") {
        text_of("Zig")
    } else if is_text(ext, "sh") {
        text_of("Shell")
    } else if is_text(ext, "json") {
        text_of("JSON")
    } else if is_text(ext, "yml") || is_text(ext, "yaml") {
        text_of("YAML")
    } else {
        to_uppercase(ext)
    }
}

/// What a walk has gathered, as a mathematical value.
pub struct Gathered {
    pub files_scanned: nat,
    pub scan_truncated: bool,
    pub directories: Seq<Count>,
    pub extensions: Seq<Count>,
    pub sample_files: Seq<Seq<u8>>,
    pub todo_count: nat,
}

/// What the walk does after a file was handed in.
#[derive(Clone, Copy, Debug, PartialEq, Eq, Structural)]
pub enum FileStep {
    /// The file was counted. When `count_todos` is set, its notes to self
    /// are to be counted and handed to `add_todos`.
    Continue { count_todos: bool },
    /// There are too many files: the walk ends here.
    Stop,
}

/// Gathers what a summary needs while the project is walked.
pub struct SummaryBuilder {
    pub files_scanned: usize,
    pub scan_truncated: bool,
    pub directories: Vec<Tally>,
    pub extensions: Vec<Tally>,
    pub sample_files: Vec<Vec<u8>>,
    pub todo_count: usize,
}

impl View for SummaryBuilder {
    type V = Gathered;

    open spec fn view(&self) -> Gathered {
        Gathered {
            files_scanned: self.files_scanned as nat,
            scan_truncated: self.scan_truncated,
            directories: counts_view(self.directories@),
            extensions: counts_view(self.extensions@),
            sample_files: texts_of(self.sample_files@),
            todo_count: self.todo_count as nat,
        }
    }
}

/// A file of the project, as the walk sees it.
pub struct FileSeen {
    /// The path of the file below the root, where it has one.
    pub relative: Option<Seq<u8>>,
    /// The first name of that path.
    pub top: Option<Seq<u8>>,
    /// The extension of the file.
    pub extension: Option<Seq<u8>>,
}

/// What is gathered once `file` was counted.
pub open spec fn after_file(g: Gathered, file: FileSeen) -> Gathered {
    let with_path = match file.relative {
        Some(relative) => Gathered {
            sample_files: if g.sample_files.len() < MAX_SAMPLE_FILES {
                g.sample_files.push(relative)
            } else {
                g.sample_files
            },
            directories: seen(
                g.directories,
                match file.top {
                    Some(name) => name,
                    None => ROOT_NAME.spec_bytes(),
                },
                Some(relative),
                MAX_DIRECTORY_SAMPLES as nat,
            ),
            ..g
        },
        None => g,
    };
    Gathered {
        files_scanned: g.files_scanned + 1,
        extensions: match file.extension {
            Some(ext) => seen(g.extensions, lowercase(ext), None, 0),
            None => g.extensions,
        },
        ..with_path
    }
}

/// What is gathered, and what the walk does, once `file` was handed in.
/// The file past the limit is not counted: it marks the walk as cut short
/// and ends it, and after that nothing changes.
pub open spec fn visit(g: Gathered, file: FileSeen) -> (Gathered, FileStep) {
    if g.scan_truncated {
        (g, FileStep::Stop)
    } else if g.files_scanned >= MAX_SCAN_FILES {
        (Gathered { scan_truncated: true, ..g }, FileStep::Stop)
    } else {
        (after_file(g, file), FileStep::Continue { count_todos: g.todo_count < TODO_LIMIT })
    }
}

impl SummaryBuilder {
    /// The number of files counted stays within the limit of the walk, no
    /// tally exceeds it, and no more samples are kept than are allowed: of
    /// the project, of each directory, and none of an extension.
    pub open spec fn wf(&self) -> bool {
        &&& self.files_scanned <= MAX_SCAN_FILES
        &&& self.sample_files@.len() <= MAX_SAMPLE_FILES
        &&& counts_below(counts_view(self.directories@), self.files_scanned as nat)
        &&& counts_below(counts_view(self.extensions@), self.files_scanned as nat)
        &&& samples_below(counts_view(self.directories@), MAX_DIRECTORY_SAMPLES as nat)
        &&& samples_below(counts_view(self.extensions@), 0)
    }

    /// Whether what was gathered is within its limits.
    pub fn is_sound(&self) -> (r: bool)
        ensures
            r == self.wf(),
    {
        self.files_scanned <= MAX_SCAN_FILES && self.sample_files.len() <= MAX_SAMPLE_FILES
            && tallies_are_sound(&self.directories, self.files_scanned, MAX_DIRECTORY_SAMPLES)
            && tallies_are_sound(&self.extensions, self.files_scanned, 0)
    }

    /// Nothing gathered yet.
    pub fn new() -> (r: SummaryBuilder)
        ensures
            r.wf(),
            r@ == (Gathered {
                files_scanned: 0,
                scan_truncated: false,
                directories: Seq::empty(),
                extensions: Seq::empty(),
                sample_files: Seq::empty(),
                todo_count: 0,
            }),
    {
        let r = SummaryBuilder {
            files_scanned: 0,
            scan_truncated: false,
            directories: Vec::new(),
            extensions: Vec::new(),
            sample_files: Vec::new(),
            todo_count: 0,
        };
        proof {
            assert(counts_view(r.directories@) =~= Seq::<Count>::empty());
            assert(counts_view(r.extensions@) =~= Seq::<Count>::empty());
            assert(texts_of(r.sample_files@) =~= Seq::<Seq<u8>>::empty());
        }
        r
    }

    /// Counts a file. `relative` is its path below the root, `top` the first
    /// name of that path, `extension` its extension.
    pub fn visit_file(
        &mut self,
        relative: Option<&[u8]>,
        top: Option<&[u8]>,
        extension: Option<&[u8]>,
    ) -> (step: FileStep)
        requires
            old(self).wf(),
        ensures
            final(self).wf(),
            (final(self)@, step) == visit(
                old(self)@,
                FileSeen {
                    relative: match relative {
                        Some(t) => Some(t@),
                        None => None,
                    },
                    top: match top {
                        Some(t) => Some(t@),
                        None => None,
                    },
                    extension: match extension {
                        Some(t) => Some(t@),
                        None => None,
                    },
                },
            ),
    {
        if self.scan_truncated {
            return FileStep::Stop;
        }
        let before: usize = self.files_scanned;
        if before >= MAX_SCAN_FILES {
            self.scan_truncated = true;
            return FileStep::Stop;
        }
        self.files_scanned = before + 1;
        match relative {
            Some(path) => {
                if self.sample_files.len() < MAX_SAMPLE_FILES {
                    let ghost kept = self.sample_files@;
                    self.sample_files.push(slice_to_vec(path));
                    proof {
                        assert(texts_of(self.sample_files@) =~= texts_of(kept).push(path@));
                    }
                }
                let name: &[u8] = match top {
                    Some(name) => name,
                    None => ROOT_NAME.as_bytes(),
                };
                proof {
                    lemma_seen_below(
                        counts_view(self.directories@),
                        name@,
                        Some(path@),
                        MAX_DIRECTORY_SAMPLES as nat,
                        before as nat,
                    );
                    lemma_seen_samples(
                        counts_view(self.directories@),
                        name@,
                        Some(path@),
                        MAX_DIRECTORY_SAMPLES as nat,
                    );
                }
                count_name(&mut self.directories, name, Some(path), MAX_DIRECTORY_SAMPLES);
            },
            None => {
                proof {
                    let d = counts_view(self.directories@);
                    assert forall|i: int| 0 <= i < d.len() implies (#[trigger] d[i]).count <= before
                        + 1 by {}
                }
            },
        }
        match extension {
            Some(ext) => {
                let lower = to_lowercase(ext);
                proof {
                    lemma_seen_below(
                        counts_view(self.extensions@),
                        lower@,
                        None,
                        0,
                        before as nat,
                    );
                    lemma_seen_samples(counts_view(self.extensions@), lower@, None, 0);
                }
                count_name(&mut self.extensions, lower.as_slice(), None, 0);
            },
            None => {
                proof {
                    let e = counts_view(self.extensions@);
                    assert forall|i: int| 0 <= i < e.len() implies (#[trigger] e[i]).count <= before
                        + 1 by {}
                }
            },
        }
        FileStep::Continue { count_todos: self.todo_count < TODO_LIMIT }
    }

    /// Adds the notes to self counted in a file.
    pub fn add_todos(&mut self, count: usize)
        requires
            old(self).wf(),
        ensures
            final(self).wf(),
            final(self)@ == (Gathered {
                todo_count: bounded_sum(old(self).todo_count, count) as nat,
                ..old(self)@
            }),
    {
        self.todo_count = if count > usize::MAX - self.todo_count {
            usize::MAX
        } else {
            self.todo_count + count
        };
    }
}

/// A language of a project, as a mathematical value.
pub struct LanguageCount {
    pub language: Seq<u8>,
    pub extension: Seq<u8>,
    pub files: nat,
}

/// A language of a project: its name, the extension of its files, and how
/// many there are.
pub struct LanguageSummary {
    pub language: Vec<u8>,
    pub extension: Vec<u8>,
    pub files: usize,
}

impl View for LanguageSummary {
    type V = LanguageCount;

    open spec fn view(&self) -> LanguageCount {
        LanguageCount {
            language: self.language@,
            extension: self.extension@,
            files: self.files as nat,
        }
    }
}

/// The languages that a vector holds.
pub open spec fn languages_view(v: Seq<LanguageSummary>) -> Seq<LanguageCount> {
    v.map_values(|l: LanguageSummary| l@)
}

/// The languages that tallies of extensions stand for.
pub open spec fn languages_of(counts: Seq<Count>) -> Seq<LanguageCount> {
    counts.map_values(
        |c: Count|
            LanguageCount { language: language_name(c.name), extension: c.name, files: c.count },
    )
}

/// A summary as a mathematical value.
pub struct Summary {
    pub root: Seq<u8>,
    pub generated_at: Seq<u8>,
    pub files_scanned: nat,
    pub scan_truncated: bool,
    pub top_directories: Seq<Count>,
    pub dominant_languages: Seq<LanguageCount>,
    pub sample_files: Seq<Seq<u8>>,
    pub todo_count: nat,
    pub readme_excerpt: Option<Seq<u8>>,
}

/// The summary of a project.
pub struct ProjectSummary {
    pub root: Vec<u8>,
    /// When the summary was made.
    pub generated_at: Vec<u8>,
    pub files_scanned: usize,
    /// Whether the walk ended early because there were too many files.
    pub scan_truncated: bool,
    /// The directories with the most files, each with a few of them.
    pub top_directories: Vec<Tally>,
    /// The languages with the most files.
    pub dominant_languages: Vec<LanguageSummary>,
    pub sample_files: Vec<Vec<u8>>,
    pub todo_count: usize,
    pub readme_excerpt: Option<Vec<u8>>,
}

impl View for ProjectSummary {
    type V = Summary;

    open spec fn view(&self) -> Summary {
        Summary {
            root: self.root@,
            generated_at: self.generated_at@,
            files_scanned: self.files_scanned as nat,
            scan_truncated: self.scan_truncated,
            top_directories: counts_view(self.top_directories@),
            dominant_languages: languages_view(self.dominant_languages@),
            sample_files: texts_of(self.sample_files@),
            todo_count: self.todo_count as nat,
            readme_excerpt: match self.readme_excerpt {
                Some(text) => Some(text@),
                None => None,
            },
        }
    }
}

/// The summary made of what was gathered: the `max_directories`
/// directories and the `max_languages` languages with the most files,
/// greatest first.
pub open spec fn summary_of(
    g: Gathered,
    root: Seq<u8>,
    generated_at: Seq<u8>,
    readme_excerpt: Option<Seq<u8>>,
    max_directories: nat,
    max_languages: nat,
) -> Summary {
    Summary {
        root,
        generated_at,
        files_scanned: g.files_scanned,
        scan_truncated: g.scan_truncated,
        top_directories: top_counts(g.directories, max_directories),
        dominant_languages: languages_of(top_counts(g.extensions, max_languages)),
        sample_files: g.sample_files,
        todo_count: g.todo_count,
        readme_excerpt,
    }
}

/// The languages stand greatest first.
pub open spec fn languages_descending(s: Seq<LanguageCount>) -> bool {
    forall|i: int, j: int| 0 <= i < j < s.len() ==> (#[trigger] s[i]).files >= (#[trigger] s[j]).files
}

/// Makes the summary of a project from what the walk has gathered. It
/// counts at most 5000 files, names at most 12 of them, and at most 3 of
/// each directory; directories and languages stand greatest first, no more
/// of them than asked for.
pub fn collect_project_summary(
    gathered: SummaryBuilder,
    root: Vec<u8>,
    generated_at: Vec<u8>,
    readme_excerpt: Option<Vec<u8>>,
    max_directories: usize,
    max_languages: usize,
) -> (r: ProjectSummary)
    requires
        gathered.wf(),
    ensures
        r@ == summary_of(
            gathered@,
            root@,
            generated_at@,
            match readme_excerpt {
                Some(text) => Some(text@),
                None => None,
            },
            max_directories as nat,
            max_languages as nat,
        ),
        r@.files_scanned <= MAX_SCAN_FILES,
        r@.sample_files.len() <= MAX_SAMPLE_FILES,
        r@.top_directories.len() <= max_directories,
        r@.dominant_languages.len() <= max_languages,
        descending(r@.top_directories),
        languages_descending(r@.dominant_languages),
        samples_below(r@.top_directories, MAX_DIRECTORY_SAMPLES as nat),
{
    proof {
        lemma_top_counts_keep(
            counts_view(gathered.directories@),
            max_directories as nat,
            |c: Count|
                c.samples.len() <= MAX_DIRECTORY_SAMPLES as nat && c.samples.len() <= c.count,
        );
    }
    let top_directories = top_tallies(gathered.directories, max_directories);
    let top_extensions = top_tallies(gathered.extensions, max_languages);
    let ghost wanted = languages_of(counts_view(top_extensions@));
    let mut dominant_languages: Vec<LanguageSummary> = Vec::new();
    let mut i: usize = 0;
    while i < top_extensions.len()
        invariant
            i <= top_extensions@.len(),
            wanted == languages_of(counts_view(top_extensions@)),
            languages_view(dominant_languages@) == wanted.take(i as int),
        decreases top_extensions.len() - i,
    {
        let tally = &top_extensions[i];
        let entry = LanguageSummary {
            language: language_from_extension(tally.name.as_slice()),
            extension: tally.name.clone(),
            files: tally.count,
        };
        let ghost before = dominant_languages@;
        dominant_languages.push(entry);
        proof {
            assert(counts_view(top_extensions@)[i as int] == tally@);
            assert(entry@ == wanted[i as int]);
            assert(languages_view(dominant_languages@) =~= languages_view(before).push(entry@));
            assert(languages_view(dominant_languages@) =~= wanted.take(i + 1));
        }
        i += 1;
    }
    proof {
        assert(wanted.take(top_extensions@.len() as int) =~= wanted);
        assert(counts_view(top_directories@).len() == top_directories@.len());
        assert(languages_view(dominant_languages@).len() == dominant_languages@.len());
        assert(texts_of(gathered.sample_files@).len() == gathered.sample_files@.len());
        let tops = counts_view(top_extensions@);
        assert forall|i: int, j: int| 0 <= i < j < wanted.len() implies (#[trigger] wanted[i]).files
            >= (#[trigger] wanted[j]).files by {
            assert(tops[i].count >= tops[j].count);
        }
    }
    ProjectSummary {
        root,
        generated_at,
        files_scanned: gathered.files_scanned,
        scan_truncated: gathered.scan_truncated,
        top_directories,
        dominant_languages,
        sample_files: gathered.sample_files,
        todo_count: gathered.todo_count,
        readme_excerpt,
    }
}

} // verus!
