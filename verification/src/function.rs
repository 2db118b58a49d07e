//! Functions and the detection of the names that their bodies mention.

use crate::file::CodeFile;
use crate::file::CodeFileView;
use crate::text::contains;
use crate::text::is_substring;
use vstd::prelude::*;

verus! {

/// The mathematical value of a [`Function`].
pub struct FunctionView {
    /// The declared identifier.
    pub name: Seq<char>,
    /// The text of the body.
    pub body: Seq<char>,
    /// The names that the body was found to mention, in the order of detection.
    pub calls: Seq<Seq<char>>,
}

/// A top-level function of a source file: its name, the text of its body and
/// the names of the functions that the body mentions.
#[derive(PartialEq, Eq, Hash, Debug)]
pub struct Function {
    name: String,
    body: String,
    calls: Vec<String>,
}

impl View for Function {
    type V = FunctionView;

    closed spec fn view(&self) -> FunctionView {
        FunctionView { name: self.name@, body: self.body@, calls: self.calls.deep_view() }
    }
}

impl DeepView for Function {
    type V = FunctionView;

    open spec fn deep_view(&self) -> FunctionView {
        self.view()
    }
}

impl Clone for Function {
    /// A copy with the same name, body and calls.
    fn clone(&self) -> (copy: Self)
        ensures
            copy@ == self@,
    {
        let calls = self.calls.clone();
        assert(calls.deep_view() =~= self.calls.deep_view());
        Function { name: self.name.clone(), body: self.body.clone(), calls }
    }
}

impl Function {
    /// Creates a function that mentions nothing yet.
    pub fn new(name: String, body: String) -> (function: Self)
        ensures
            function@ == (FunctionView { name: name@, body: body@, calls: Seq::empty() }),
    {
        let function = Function { name, body, calls: Vec::new() };
        assert(function.calls.deep_view() =~= Seq::empty());
        function
    }

    /// The declared identifier.
    pub fn get_name(&self) -> (name: String)
        ensures
            name@ == self@.name,
    {
        self.name.clone()
    }

    /// The text of the body.
    pub fn get_body(&self) -> (body: String)
        ensures
            body@ == self@.body,
    {
        self.body.clone()
    }

    /// Appends `call` to the names that this function mentions.
    pub fn add_calls(&mut self, call: Vec<String>)
        ensures
            final(self)@ == (FunctionView {
                calls: old(self)@.calls + call.deep_view(),
                ..old(self)@
            }),
    {
        let mut call = call;
        let ghost added = call.deep_view();
        self.calls.append(&mut call);
        assert(self.calls.deep_view() =~= old(self).calls.deep_view() + added);
    }

    /// The names that this function mentions, in the order of detection.
    pub fn get_calls(&self) -> (calls: Vec<String>)
        ensures
            calls.deep_view() == self@.calls,
    {
        let calls = self.calls.clone();
        assert(calls.deep_view() =~= self.calls.deep_view());
        calls
    }
}

/// The test that a name passes if `body` mentions it.
pub open spec fn mentioned_in(body: Seq<char>) -> spec_fn(Seq<char>) -> bool {
    |name: Seq<char>| is_substring(name, body)
}

/// The names among `names` that `body` mentions: each name that occurs in
/// `body` as a substring, as often and in the order in which `names` lists it.
pub open spec fn mentions(body: Seq<char>, names: Seq<Seq<char>>) -> Seq<Seq<char>> {
    names.filter(mentioned_in(body))
}

/// The names of the functions of `file`, in the order of declaration.
pub open spec fn function_names(file: CodeFileView) -> Seq<Seq<char>> {
    file.functions.map_values(|f: FunctionView| f.name)
}

/// The names of all functions of `files`: file by file, and in each file in
/// the order of declaration.  A name that several functions bear is listed
/// once for each of them.
pub open spec fn all_names(files: Seq<CodeFileView>) -> Seq<Seq<char>> {
    files.map_values(|file: CodeFileView| function_names(file)).flatten()
}

/// `f` after the names among `names` that its body mentions have been
/// appended to its calls.
pub open spec fn resolved_function(f: FunctionView, names: Seq<Seq<char>>) -> FunctionView {
    FunctionView { calls: f.calls + mentions(f.body, names), ..f }
}

/// `file` after each of its functions has been resolved against `names`.
pub open spec fn resolved_file(file: CodeFileView, names: Seq<Seq<char>>) -> CodeFileView {
    CodeFileView {
        functions: file.functions.map_values(|f: FunctionView| resolved_function(f, names)),
        ..file
    }
}

/// `files` after each function has been resolved against the names of all
/// functions of `files`.
pub open spec fn resolved(files: Seq<CodeFileView>) -> Seq<CodeFileView> {
    files.map_values(|file: CodeFileView| resolved_file(file, all_names(files)))
}

/// Picks from `needles` the names that occur in `haystack` as a substring.
/// The order of `needles` is kept, and so is every repetition in it.
pub fn find_function_calls(haystack: &String, needles: &Vec<String>) -> (found: Vec<String>)
    ensures
        found.deep_view() == mentions(haystack@, needles.deep_view()),
{
    let ghost names = needles.deep_view();
    let mut found: Vec<String> = Vec::new();
    let mut i: usize = 0;
    proof {
        reveal(Seq::filter);
        assert(names.take(0) =~= Seq::empty());
        assert(found.deep_view() =~= Seq::empty());
    }
    while i < needles.len()
        invariant
            i <= needles.len(),
            names == needles.deep_view(),
            found.deep_view() == mentions(haystack@, names.take(i as int)),
        decreases needles.len() - i,
    {
        let ghost earlier = found.deep_view();
        proof {
            reveal(Seq::filter);
            assert(names.take(i + 1).drop_last() =~= names.take(i as int));
            assert(names.take(i + 1).last() == needles[i as int]@);
        }
        if contains(haystack.as_str(), needles[i].as_str()) {
            found.push(needles[i].clone());
            assert(found.deep_view() =~= earlier.push(needles[i as int]@));
        }
        i += 1;
    }
    assert(names.take(i as int) =~= names);
    found
}

/// Lists the names of all functions of `files`.
pub fn get_found_methods(files: &Vec<CodeFile>) -> (names: Vec<String>)
    ensures
        names.deep_view() == all_names(files.deep_view()),
{
    let ghost per_file = files.deep_view().map_values(|file: CodeFileView| function_names(file));
    let mut result: Vec<String> = Vec::new();
    let mut i: usize = 0;
    proof {
        assert(per_file.take(0) =~= Seq::empty());
        assert(result.deep_view() =~= Seq::empty());
    }
    while i < files.len()
        invariant
            i <= files.len(),
            per_file == files.deep_view().map_values(|file: CodeFileView| function_names(file)),
            result.deep_view() == per_file.take(i as int).flatten(),
        decreases files.len() - i,
    {
        let functions = files[i].get_functions();
        let ghost done = result.deep_view();
        let ghost file = files[i as int]@;
        let mut j: usize = 0;
        assert(function_names(file).take(0) =~= Seq::empty());
        while j < functions.len()
            invariant
                j <= functions.len(),
                functions.deep_view() == file.functions,
                result.deep_view() == done + function_names(file).take(j as int),
            decreases functions.len() - j,
        {
            let name = functions[j].get_name();
            let ghost earlier = result.deep_view();
            result.push(name);
            proof {
                assert(functions.deep_view()[j as int] == file.functions[j as int]);
                assert(result.deep_view() =~= earlier.push(name@));
                assert(result.deep_view() =~= done + function_names(file).take(j + 1));
            }
            j += 1;
        }
        proof {
            assert(function_names(file).take(j as int) =~= function_names(file));
            assert(per_file.take(i + 1) =~= per_file.take(i as int).push(per_file[i as int]));
            per_file.take(i as int).lemma_flatten_push(per_file[i as int]);
        }
        i += 1;
    }
    assert(per_file.take(i as int) =~= per_file);
    result
}

/// Resolves the calls of every function of `files`: each function gets
/// appended to its calls the names of the functions of `files` that its body
/// mentions.  Files, functions, names and bodies stay as they are.
///
/// The detection is textual: a name counts as mentioned wherever it occurs in
/// the body, be it inside a longer word, and a function that mentions its own
/// name calls itself.  The names are tried in the order of [`all_names`], not
/// in the order in which the body mentions them.  A name that several
/// functions bear is tried once for each of them, so a body that mentions it
/// gets that many equal calls.  The calls accumulate: a second run appends
/// the same names once more.
pub fn analyse_functions(files: &mut Vec<CodeFile>)
    ensures
        final(files).deep_view() == resolved(old(files).deep_view()),
{
    let function_list = get_found_methods(files);
    let ghost before = files.deep_view();
    let ghost names = all_names(before);
    let mut i: usize = 0;
    while i < files.len()
        invariant
            i <= files.len(),
            files.len() == before.len(),
            function_list.deep_view() == names,
            forall|k: int|
                0 <= k < i ==> (#[trigger] files[k])@ == resolved_file(before[k], names),
            forall|k: int| i <= k < files.len() ==> (#[trigger] files[k])@ == before[k],
        decreases files.len() - i,
    {
        let functions = files[i].get_functions_mut();
        let ghost start = functions.deep_view();
        let mut j: usize = 0;
        while j < functions.len()
            invariant
                j <= functions.len(),
                functions.len() == start.len(),
                function_list.deep_view() == names,
                forall|k: int|
                    0 <= k < j ==> (#[trigger] functions[k])@ == resolved_function(
                        start[k],
                        names,
                    ),
                forall|k: int|
                    j <= k < functions.len() ==> (#[trigger] functions[k])@ == start[k],
            decreases functions.len() - j,
        {
            let function = &mut functions[j];
            let calls = find_function_calls(&function.body, &function_list);
            function.add_calls(calls);
            j += 1;
        }
        assert(functions.deep_view() =~= resolved_file(before[i as int], names).functions);
        i += 1;
    }
    assert(files.deep_view() =~= resolved(before));
}

/// An element of one of the sequences of `parts` is an element of their
/// concatenation.
proof fn lemma_flatten_contains<A>(parts: Seq<Seq<A>>, i: int, j: int)
    requires
        0 <= i < parts.len(),
        0 <= j < parts[i].len(),
    ensures
        parts.flatten().contains(parts[i][j]),
    decreases parts.len(),
{
    let rest = parts.drop_first();
    if i == 0 {
        assert(parts.flatten()[j] == parts[i][j]);
    } else {
        lemma_flatten_contains(rest, i - 1, j);
        let at = choose|at: int|
            0 <= at < rest.flatten().len() && rest.flatten()[at] == parts[i][j];
        assert(parts.flatten()[parts.first().len() + at] == parts[i][j]);
    }
}

/// Every function of `files` has its name among the names of all functions.
pub proof fn lemma_all_names_hold_every_name(files: Seq<CodeFileView>, i: int, j: int)
    requires
        0 <= i < files.len(),
        0 <= j < files[i].functions.len(),
    ensures
        all_names(files).contains(files[i].functions[j].name),
{
    let per_file = files.map_values(|file: CodeFileView| function_names(file));
    lemma_flatten_contains(per_file, i, j);
}

/// Self-reference is detected: once the calls are resolved, a function whose
/// body mentions its own name has that name among its calls.
pub proof fn lemma_self_mention_is_detected(files: Seq<CodeFileView>, i: int, j: int)
    requires
        0 <= i < files.len(),
        0 <= j < files[i].functions.len(),
        is_substring(files[i].functions[j].name, files[i].functions[j].body),
    ensures
        resolved(files)[i].functions[j].calls.contains(files[i].functions[j].name),
{
    let f = files[i].functions[j];
    let names = all_names(files);
    lemma_all_names_hold_every_name(files, i, j);
    let at = choose|at: int| 0 <= at < names.len() && names[at] == f.name;
    names.lemma_filter_contains(mentioned_in(f.body), at);
    let found = mentions(f.body, names);
    let k = choose|k: int| 0 <= k < found.len() && found[k] == f.name;
    assert((f.calls + found)[f.calls.len() + k] == f.name);
}

/// No call is made up: every name that the detection finds for `body` is one
/// of `names` and occurs in `body`, and no name is found more often than
/// `names` lists it.
pub proof fn lemma_mentions_come_from_names(body: Seq<char>, names: Seq<Seq<char>>)
    ensures
        forall|k: int|
            0 <= k < mentions(body, names).len() ==> names.contains(
                #[trigger] mentions(body, names)[k],
            ) && is_substring(mentions(body, names)[k], body),
        forall|name: Seq<char>|
            mentions(body, names).to_multiset().count(name) <= names.to_multiset().count(name),
    decreases names.len(),
{
    reveal(Seq::filter);
    broadcast use vstd::seq_lib::to_multiset_build;

    if names.len() > 0 {
        let rest = names.drop_last();
        let last = names.last();
        lemma_mentions_come_from_names(body, rest);
        assert(names =~= rest.push(last));
        assert forall|k: int| 0 <= k < mentions(body, names).len() implies names.contains(
            #[trigger] mentions(body, names)[k],
        ) && is_substring(mentions(body, names)[k], body) by {
            if k < mentions(body, rest).len() {
                let name = mentions(body, rest)[k];
                assert(rest.contains(name));
                let at = choose|at: int| 0 <= at < rest.len() && rest[at] == name;
                assert(names[at] == name);
            } else {
                assert(names[names.len() - 1] == last);
            }
        }
        assert(names.to_multiset() =~= rest.to_multiset().insert(last));
        if is_substring(last, body) {
            assert(mentions(body, names).to_multiset() =~= mentions(
                body,
                rest,
            ).to_multiset().insert(last));
        }
    }
}

/// After the first resolution of a collection, every call of a function is
/// the name of a function of the collection and occurs in the body, and no
/// name stands among the calls more often than functions bear it.
pub proof fn lemma_no_call_is_made_up(files: Seq<CodeFileView>, i: int, j: int)
    requires
        0 <= i < files.len(),
        0 <= j < files[i].functions.len(),
        files[i].functions[j].calls.len() == 0,
    ensures
        forall|k: int|
            0 <= k < resolved(files)[i].functions[j].calls.len() ==> all_names(files).contains(
                #[trigger] resolved(files)[i].functions[j].calls[k],
            ) && is_substring(
                resolved(files)[i].functions[j].calls[k],
                files[i].functions[j].body,
            ),
        forall|name: Seq<char>|
            resolved(files)[i].functions[j].calls.to_multiset().count(name) <= all_names(
                files,
            ).to_multiset().count(name),
{
    let f = files[i].functions[j];
    lemma_mentions_come_from_names(f.body, all_names(files));
    assert(resolved(files)[i].functions[j].calls =~= mentions(f.body, all_names(files)));
}

/// Resolution changes nothing but the calls: files, functions, names and
/// bodies stay, and what a function had among its calls stays in front.
pub proof fn lemma_resolution_keeps_composition(files: Seq<CodeFileView>, i: int, j: int)
    requires
        0 <= i < files.len(),
        0 <= j < files[i].functions.len(),
    ensures
        resolved(files).len() == files.len(),
        resolved(files)[i].name == files[i].name,
        resolved(files)[i].functions.len() == files[i].functions.len(),
        resolved(files)[i].functions[j].name == files[i].functions[j].name,
        resolved(files)[i].functions[j].body == files[i].functions[j].body,
        files[i].functions[j].calls.is_prefix_of(resolved(files)[i].functions[j].calls),
        all_names(resolved(files)) == all_names(files),
{
    let calls = files[i].functions[j].calls;
    let after = resolved(files)[i].functions[j].calls;
    assert(after.subrange(0, calls.len() as int) =~= calls);
    assert(resolved(files).map_values(|file: CodeFileView| function_names(file))
        =~= files.map_values(|file: CodeFileView| function_names(file))) by {
        assert forall|k: int| 0 <= k < files.len() implies function_names(resolved(files)[k])
            == function_names(files[k]) by {
            assert(function_names(resolved(files)[k]) =~= function_names(files[k]));
        }
    }
}

/// Resolution is deterministic: two runs that start from the same collection
/// end in the same collection.
pub proof fn lemma_resolution_is_deterministic(
    files: Seq<CodeFileView>,
    first: Seq<CodeFileView>,
    second: Seq<CodeFileView>,
)
    requires
        first == resolved(files),
        second == resolved(files),
    ensures
        first == second,
{
}

/// Resolution is not idempotent: a second run on the outcome of the first
/// finds for every function the names that the first run found, and appends
/// them once more.
pub proof fn lemma_second_resolution_appends_again(files: Seq<CodeFileView>, i: int, j: int)
    requires
        0 <= i < files.len(),
        0 <= j < files[i].functions.len(),
    ensures
        resolved(files)[i].functions[j].calls == files[i].functions[j].calls + mentions(
            files[i].functions[j].body,
            all_names(files),
        ),
        resolved(resolved(files))[i].functions[j].calls == files[i].functions[j].calls
            + mentions(files[i].functions[j].body, all_names(files)) + mentions(
            files[i].functions[j].body,
            all_names(files),
        ),
{
    lemma_resolution_keeps_composition(files, i, j);
}

} // verus!
