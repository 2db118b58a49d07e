//! Source files and the functions declared in them.

use crate::function::Function;
use crate::function::FunctionView;
use crate::syntax::error_message;
use crate::syntax::parse_items;
use crate::syntax::parsed_items;
use crate::syntax::SourceItem;
use crate::syntax::SourceItemView;
use vstd::prelude::*;

verus! {

/// The mathematical value of a [`CodeFile`].
pub struct CodeFileView {
    /// The base name of the file.
    pub name: Seq<char>,
    /// The functions of the file, in the order of declaration.
    pub functions: Seq<FunctionView>,
}

/// The mathematical value of a [`SourceText`].
pub struct SourceTextView {
    pub path: Seq<char>,
    pub code: Seq<char>,
}

/// A source file as it was read: the path it was found under and its text.
#[derive(PartialEq, Eq, Debug)]
pub struct SourceText {
    pub path: String,
    pub code: String,
}

impl View for SourceText {
    type V = SourceTextView;

    open spec fn view(&self) -> SourceTextView {
        SourceTextView { path: self.path@, code: self.code@ }
    }
}

impl DeepView for SourceText {
    type V = SourceTextView;

    open spec fn deep_view(&self) -> SourceTextView {
        self.view()
    }
}

/// The failure to read a source text as a Rust source file.
#[derive(PartialEq, Eq, Debug)]
pub struct ParseError {
    /// The path of the file that was rejected.
    pub path: String,
    /// What the parser said.
    pub message: String,
}

/// A source file: its base name and its top-level functions in the order of
/// declaration.
#[derive(PartialEq, Eq, Debug)]
pub struct CodeFile {
    file_name: String,
    functions: Vec<Function>,
}

impl View for CodeFile {
    type V = CodeFileView;

    closed spec fn view(&self) -> CodeFileView {
        CodeFileView { name: self.file_name@, functions: self.functions.deep_view() }
    }
}

impl DeepView for CodeFile {
    type V = CodeFileView;

    open spec fn deep_view(&self) -> CodeFileView {
        self.view()
    }
}

impl CodeFile {
    /// Creates a file without functions.
    pub fn new(file_name: String) -> (file: Self)
        ensures
            file@ == (CodeFileView { name: file_name@, functions: Seq::empty() }),
    {
        let file = CodeFile { file_name, functions: Vec::new() };
        assert(file.functions.deep_view() =~= Seq::empty());
        file
    }

    /// Adds `function` behind the functions that the file already has.
    pub fn add_function(&mut self, function: Function)
        ensures
            final(self)@ == (CodeFileView {
                functions: old(self)@.functions.push(function@),
                ..old(self)@
            }),
    {
        self.functions.push(function);
        assert(self.functions.deep_view() =~= old(self).functions.deep_view().push(function@));
    }

    /// The functions of the file, in the order of declaration.
    pub fn get_functions(&self) -> (functions: Vec<Function>)
        ensures
            functions.deep_view() == self@.functions,
    {
        let functions = self.functions.clone();
        assert(functions.deep_view() =~= self.functions.deep_view());
        functions
    }

    /// The functions of the file, open to change.
    pub fn get_functions_mut(&mut self) -> (functions: &mut Vec<Function>)
        ensures
            functions.deep_view() == old(self)@.functions,
            final(self)@ == (CodeFileView {
                functions: final(functions).deep_view(),
                ..old(self)@
            }),
    {
        &mut self.functions
    }

    /// The base name of the file.
    pub fn get_name(&self) -> (name: String)
        ensures
            name@ == self@.name,
    {
        self.file_name.clone()
    }
}

/// Where the path segment that ends before position `end` begins: behind the
/// last `/` before `end`, or at the start of `path`.
pub open spec fn segment_start(path: Seq<char>, end: int) -> int
    decreases end,
{
    if end <= 0 {
        0
    } else if path[end - 1] == '/' {
        end
    } else {
        segment_start(path, end - 1)
    }
}

/// The base name of the first `end` characters of `path`.
pub open spec fn base_name_before(path: Seq<char>, end: int) -> Seq<char>
    decreases end,
{
    let start = segment_start(path, end);
    let segment = path.subrange(start, end);
    if segment.len() == 0 || segment == seq!['.'] {
        if 0 < start <= end {
            base_name_before(path, start - 1)
        } else {
            Seq::empty()
        }
    } else if segment == seq!['.', '.'] {
        Seq::empty()
    } else {
        segment
    }
}

/// The base name of `path`: its last segment between `/` separators that is
/// neither empty nor `.`.  It is empty where there is no such segment and
/// where that segment is `..`.
pub open spec fn base_name(path: Seq<char>) -> Seq<char> {
    base_name_before(path, path.len() as int)
}

/// Whether the base name of `path` ends in `.rs` behind at least one more
/// character.
pub open spec fn is_source_path(path: Seq<char>) -> bool {
    let name = base_name(path);
    name.len() > 3 && name.subrange(name.len() - 3, name.len() as int) == seq!['.', 'r', 's']
}

/// Whether `name` can name a file in a directory: it is not empty, not `.`
/// and not `..`, and holds no `/`.
pub open spec fn is_file_name(name: Seq<char>) -> bool {
    &&& name.len() > 0
    &&& name != seq!['.']
    &&& name != seq!['.', '.']
    &&& forall|k: int| 0 <= k < name.len() ==> name[k] != '/'
}

/// The segment that ends before `end` begins at `start` if a `/` or the start
/// of the path stands before `start` and no `/` stands from there up to `end`.
proof fn lemma_segment_start_is(path: Seq<char>, start: int, end: int)
    requires
        0 <= start <= end <= path.len(),
        start == 0 || path[start - 1] == '/',
        forall|k: int| start <= k < end ==> path[k] != '/',
    ensures
        segment_start(path, end) == start,
    decreases end - start,
{
    if start < end {
        lemma_segment_start_is(path, start, end - 1);
    }
}

/// The segment that ends before `end` holds no `/`, and a `/` or the start of
/// the path stands before it.
proof fn lemma_segment_is_whole(path: Seq<char>, end: int)
    requires
        0 <= end <= path.len(),
    ensures
        0 <= segment_start(path, end) <= end,
        segment_start(path, end) == 0 || path[segment_start(path, end) - 1] == '/',
        forall|k: int| segment_start(path, end) <= k < end ==> path[k] != '/',
    decreases end,
{
    if end > 0 && path[end - 1] != '/' {
        lemma_segment_is_whole(path, end - 1);
    }
}

/// The directories that lead to a file are dropped: the base name of a file
/// name is the name itself, with or without a directory in front of it.
pub proof fn lemma_base_name_drops_directories(directory: Seq<char>, name: Seq<char>)
    requires
        is_file_name(name),
    ensures
        base_name(name) == name,
        base_name(directory + seq!['/'] + name) == name,
{
    lemma_segment_start_is(name, 0, name.len() as int);
    assert(name.subrange(0, name.len() as int) =~= name);

    let path = directory + seq!['/'] + name;
    let start = (directory.len() + 1) as int;
    lemma_segment_start_is(path, start, path.len() as int);
    assert(path.subrange(start, path.len() as int) =~= name);
}

/// A base name is empty or a file name: it never holds a `/`, and it is
/// neither `.` nor `..`.
pub proof fn lemma_base_name_is_file_name(path: Seq<char>)
    ensures
        base_name(path).len() == 0 || is_file_name(base_name(path)),
{
    lemma_base_name_before_is_file_name(path, path.len() as int);
}

/// The base name of a prefix of a path is empty or a file name.
proof fn lemma_base_name_before_is_file_name(path: Seq<char>, end: int)
    requires
        0 <= end <= path.len(),
    ensures
        base_name_before(path, end).len() == 0 || is_file_name(base_name_before(path, end)),
    decreases end,
{
    lemma_segment_is_whole(path, end);
    let start = segment_start(path, end);
    let segment = path.subrange(start, end);
    if segment.len() == 0 || segment == seq!['.'] {
        if 0 < start {
            lemma_base_name_before_is_file_name(path, start - 1);
        }
    }
}

/// The base name of `file_path`, without the directories that lead to it.
pub fn extract_filename(file_path: &str) -> (name: String)
    ensures
        name@ == base_name(file_path@),
{
    let mut end = file_path.unicode_len();
    loop
        invariant
            end <= file_path@.len(),
            base_name(file_path@) == base_name_before(file_path@, end as int),
        decreases end,
    {
        let mut start = end;
        while start > 0 && file_path.get_char(start - 1) != '/'
            invariant
                start <= end <= file_path@.len(),
                segment_start(file_path@, end as int) == segment_start(file_path@, start as int),
            decreases start,
        {
            start -= 1;
        }
        let length = end - start;
        let ghost segment = file_path@.subrange(start as int, end as int);
        if length == 0 || (length == 1 && file_path.get_char(start) == '.') {
            assert(segment.len() == 0 || segment =~= seq!['.']);
            if start == 0 {
                return String::new();
            }
            end = start - 1;
        } else if length == 2 && file_path.get_char(start) == '.' && file_path.get_char(start + 1)
            == '.' {
            assert(segment =~= seq!['.', '.']);
            return String::new();
        } else {
            assert(segment != seq!['.']) by {
                assert(seq!['.'].len() == 1 && seq!['.'][0] == '.');
            }
            assert(segment != seq!['.', '.']) by {
                let dots = seq!['.', '.'];
                assert(dots.len() == 2 && dots[0] == '.' && dots[1] == '.');
            }
            return file_path.substring_char(start, end).to_owned();
        }
    }
}

/// Whether `path` names a Rust source file.
pub fn has_source_extension(path: &str) -> (recognized: bool)
    ensures
        recognized == is_source_path(path@),
{
    let name = extract_filename(path);
    let length = name.as_str().unicode_len();
    if length > 3 {
        let dot = name.as_str().get_char(length - 3);
        let r = name.as_str().get_char(length - 2);
        let s = name.as_str().get_char(length - 1);
        assert(name@.subrange(length - 3, length as int) =~= seq![dot, r, s]);
        assert(seq![dot, r, s] == seq!['.', 'r', 's'] <==> dot == '.' && r == 'r' && s == 's') by {
            if seq![dot, r, s] == seq!['.', 'r', 's'] {
                assert(seq![dot, r, s][0] == '.');
                assert(seq![dot, r, s][1] == 'r');
                assert(seq![dot, r, s][2] == 's');
            }
        }
        dot == '.' && r == 'r' && s == 's'
    } else {
        false
    }
}

/// What the file system says of an entry of a directory.
#[derive(Clone, Copy, PartialEq, Eq, Debug)]
pub enum EntryKind {
    /// A regular file.
    File,
    /// A directory.
    Directory,
    /// Anything else.
    Other,
}

/// What the search for source files does with an entry of a directory.
#[derive(Clone, Copy, PartialEq, Eq, Debug)]
pub enum Visit {
    /// The entry is a source file: it is taken.
    Collect,
    /// The entry is a directory: its entries are searched in turn.
    Descend,
    /// The entry is passed over.
    Skip,
}

/// Decides what the search for source files does with the entry at `path`:
/// a file is taken if its name has the extension of a Rust source file, a
/// directory is searched in turn, and everything else is passed over.
pub fn visit_entry(kind: EntryKind, path: &str) -> (visit: Visit)
    ensures
        visit is Collect <==> kind is File && is_source_path(path@),
        visit is Descend <==> kind is Directory,
{
    match kind {
        EntryKind::File => {
            if has_source_extension(path) {
                Visit::Collect
            } else {
                Visit::Skip
            }
        },
        EntryKind::Directory => Visit::Descend,
        EntryKind::Other => Visit::Skip,
    }
}

/// The function that `item` declares, with no calls yet.
pub open spec fn declared_function(item: SourceItemView) -> Option<FunctionView> {
    match item {
        SourceItemView::Function { name, body } => Some(
            FunctionView { name, body, calls: Seq::empty() },
        ),
        SourceItemView::Other => None,
    }
}

/// The file named `name` whose top-level items are `items`: it holds the
/// functions among them, in the order of declaration.
pub open spec fn file_of(name: Seq<char>, items: Seq<SourceItemView>) -> CodeFileView {
    CodeFileView {
        name,
        functions: items.filter_map(|item: SourceItemView| declared_function(item)),
    }
}

/// Gathers the functions among the top-level items of a file.
pub fn collect_functions(file_name: String, items: Vec<SourceItem>) -> (file: CodeFile)
    ensures
        file@ == file_of(file_name@, items.deep_view()),
{
    let ghost all = items.deep_view();
    let mut result = CodeFile::new(file_name);
    assert(all.take(0) =~= Seq::empty());
    for item in it: items.into_iter()
        invariant
            it.seq() == items@,
            all == items.deep_view(),
            result@ == file_of(file_name@, all.take(it.index() as int)),
    {
        proof {
            let i = it.index() as int;
            assert(all.take(i + 1).drop_last() =~= all.take(i));
            assert(all.take(i + 1).last() == item@);
        }
        match item {
            SourceItem::Function { name, body } => {
                let function = Function::new(name, body);
                result.add_function(function);
                assert(result@.functions =~= file_of(
                    file_name@,
                    all.take(it.index() + 1),
                ).functions);
            },
            SourceItem::Other => {},
        }
    }
    assert(all.take(all.len() as int) =~= all);
    result
}

/// Whether `source` is read as a Rust source file.
pub open spec fn parses(source: SourceTextView) -> bool {
    parsed_items(source.code) is Some
}

/// The file that the extraction makes of `source`, where `source` parses.
pub open spec fn extracted(source: SourceTextView) -> CodeFileView {
    file_of(base_name(source.path), parsed_items(source.code).unwrap())
}

/// Extracts the top-level functions of the source text `code`, which was read
/// from `path`.
///
/// Where the parser reads `code` as a whole source file, the result is the
/// file under the base name of `path` with the functions declared at the top
/// level of `code`, each with its name and its body and without calls.  Where
/// the parser rejects `code`, the result is the error, under `path`.
pub fn extract_functions_with_content(path: &str, code: &str) -> (result: Result<
    CodeFile,
    ParseError,
>)
    ensures
        match parsed_items(code@) {
            Some(items) => result matches Ok(file) && file@ == file_of(base_name(path@), items),
            None => result matches Err(error) && error.path@ == path@,
        },
{
    let file_name = extract_filename(path);
    match parse_items(code) {
        Ok(items) => Ok(collect_functions(file_name, items)),
        Err(error) => Err(ParseError { path: path.to_owned(), message: error_message(&error) }),
    }
}

/// Extracts the functions of every source text of `sources`, in order.
///
/// Where the parser reads every text, the result holds one file per text.
/// Otherwise nothing is extracted, and the result is the error of the first
/// text that the parser rejects.
pub fn analyse_files(sources: &Vec<SourceText>) -> (result: Result<Vec<CodeFile>, ParseError>)
    ensures
        match result {
            Ok(files) => {
                &&& forall|k: int| 0 <= k < sources.len() ==> parses(#[trigger] sources[k]@)
                &&& files.deep_view() == sources.deep_view().map_values(
                    |source: SourceTextView| extracted(source),
                )
            },
            Err(error) => exists|k: int|
                {
                    &&& 0 <= k < sources.len()
                    &&& !parses(#[trigger] sources[k]@)
                    &&& forall|earlier: int|
                        0 <= earlier < k ==> parses(#[trigger] sources[earlier]@)
                    &&& error.path@ == sources[k]@.path
                },
        },
{
    let ghost expected = sources.deep_view().map_values(
        |source: SourceTextView| extracted(source),
    );
    let mut result: Vec<CodeFile> = Vec::new();
    let mut i: usize = 0;
    while i < sources.len()
        invariant
            i <= sources.len(),
            expected == sources.deep_view().map_values(|source: SourceTextView| extracted(source)),
            forall|k: int| 0 <= k < i ==> parses(#[trigger] sources[k]@),
            result.deep_view() == expected.take(i as int),
        decreases sources.len() - i,
    {
        let source = &sources[i];
        match extract_functions_with_content(source.path.as_str(), source.code.as_str()) {
            Ok(file) => {
                let ghost earlier = result.deep_view();
                result.push(file);
                assert(result.deep_view() =~= earlier.push(file@));
                assert(result.deep_view() =~= expected.take(i + 1));
            },
            Err(error) => {
                assert(!parses(sources[i as int]@));
                return Err(error);
            },
        }
        i += 1;
    }
    assert(expected.take(i as int) =~= expected);
    Ok(result)
}

} // verus!
