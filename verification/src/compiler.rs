//! The placeholder synthesizer, and the compilation of a source text.

use vstd::prelude::*;
use crate::ast::{document_model, fields_model, Struct, StructModel, Type};
use crate::cli::Cli;
use crate::error::{
    diagnostics_model, CompileError, CompileErrorModel, Diagnostic, DiagnosticModel,
    ParseErrorModel,
};
use crate::grammar;
use crate::json;
use crate::lexer::lemma_skip_whitespace;
use crate::text::char_is_whitespace;
use crate::json::{json_members, json_value, pretty_text};
use crate::synthesis;
use crate::parser::parse_source;
use crate::synthesis::unvisited;

verus! {

/// The records that the flags mark as under expansion.
pub open spec fn visiting(on_path: Seq<bool>) -> Set<int> {
    Set::new(|i: int| 0 <= i < on_path.len() && on_path[i])
}

/// The placeholder of a primitive type; `null` for any other type.
pub fn build_primitive(ty: &Type) -> (value: serde_json::Value)
    ensures
        json_value(value) == synthesis::primitive(ty@),
{
    match ty {
        Type::String => json::string("example"),
        Type::Int => json::number(0),
        Type::Bool => json::boolean(true),
        _ => json::null(),
    }
}

/// The index of the first record named `name`.
pub fn find_struct(structs: &[Struct], name: &str) -> (found: Option<usize>)
    ensures
        match found {
            Some(index) => synthesis::find_struct(document_model(structs@), name@, 0) == Some(
                index as int,
            ),
            None => synthesis::find_struct(document_model(structs@), name@, 0) == None::<int>,
        },
{
    let mut index: usize = 0;
    while index < structs.len()
        invariant
            index <= structs.len(),
            synthesis::find_struct(document_model(structs@), name@, 0) == synthesis::find_struct(
                document_model(structs@),
                name@,
                index as int,
            ),
        decreases structs.len() - index,
    {
        if *structs[index].name.as_str() == *name {
            return Some(index);
        }
        index += 1;
    }
    None
}

/// The placeholder of a reference to the record named `name`.
fn build_reference(
    structs: &[Struct],
    name: &str,
    on_path: &mut Vec<bool>,
    notes: &mut Vec<Diagnostic>,
) -> (value: serde_json::Value)
    requires
        old(on_path).len() == structs.len(),
    ensures
        final(on_path)@ == old(on_path)@,
        json_value(value) == synthesis::synth_reference(
            document_model(structs@),
            name@,
            visiting(old(on_path)@),
        ).json,
        diagnostics_model(final(notes)@) == diagnostics_model(old(notes)@)
            + synthesis::synth_reference(
            document_model(structs@),
            name@,
            visiting(old(on_path)@),
        ).notes,
    decreases unvisited(structs@.len(), visiting(old(on_path)@)).len(), 0int, 0int,
{
    let ghost before = diagnostics_model(notes@);
    match find_struct(structs, name) {
        None => {
            let note = Diagnostic::UnresolvedReference(name.to_owned());
            proof {
                assert(diagnostics_model(notes@.push(note)) =~= before + seq![note@]);
            }
            notes.push(note);
            json::object(json::new_map())
        },
        Some(index) => {
            proof {
                synthesis::lemma_find_struct(document_model(structs@), name@, 0);
            }
            if on_path[index] {
                let note = Diagnostic::RecursiveReference(name.to_owned());
                proof {
                    assert(diagnostics_model(notes@.push(note)) =~= before + seq![note@]);
                }
                notes.push(note);
                json::null()
            } else {
                proof {
                    synthesis::lemma_unvisited_shrinks(
                        structs@.len(),
                        visiting(on_path@),
                        index as int,
                    );
                }
                build_record(structs, index, on_path, notes)
            }
        },
    }
}

/// The placeholder of a value of type `ty`.
fn build_value(
    structs: &[Struct],
    ty: &Type,
    on_path: &mut Vec<bool>,
    notes: &mut Vec<Diagnostic>,
) -> (value: serde_json::Value)
    requires
        old(on_path).len() == structs.len(),
    ensures
        final(on_path)@ == old(on_path)@,
        json_value(value) == synthesis::synth_type(
            document_model(structs@),
            ty@,
            visiting(old(on_path)@),
        ).json,
        diagnostics_model(final(notes)@) == diagnostics_model(old(notes)@) + synthesis::synth_type(
            document_model(structs@),
            ty@,
            visiting(old(on_path)@),
        ).notes,
    decreases unvisited(structs@.len(), visiting(old(on_path)@)).len(), 1int, 0int,
{
    let ghost before = diagnostics_model(notes@);
    match ty {
        Type::Custom(name) => build_reference(structs, name.as_str(), on_path, notes),
        Type::Array(inner) => {
            let element = match &**inner {
                Type::Custom(name) => build_reference(structs, name.as_str(), on_path, notes),
                Type::Array(_) => {
                    proof {
                        assert(diagnostics_model(notes@.push(Diagnostic::NestedArray)) =~= before
                            + seq![DiagnosticModel::NestedArray]);
                    }
                    notes.push(Diagnostic::NestedArray);
                    build_primitive(inner)
                },
                base => {
                    assert(diagnostics_model(notes@) =~= before + Seq::<DiagnosticModel>::empty());
                    build_primitive(base)
                },
            };
            let mut elements: Vec<serde_json::Value> = Vec::new();
            elements.push(element);
            assert(json::json_values(elements@) =~= seq![json_value(element)]);
            json::array(elements)
        },
        _ => {
            assert(diagnostics_model(notes@) =~= before + Seq::<DiagnosticModel>::empty());
            build_primitive(ty)
        },
    }
}

/// The placeholder of the record at `index`: an object with one member for
/// each field name, in the order of the fields.
fn build_record(
    structs: &[Struct],
    index: usize,
    on_path: &mut Vec<bool>,
    notes: &mut Vec<Diagnostic>,
) -> (value: serde_json::Value)
    requires
        index < structs.len(),
        old(on_path).len() == structs.len(),
        !old(on_path)[index as int],
    ensures
        final(on_path)@ == old(on_path)@,
        json_value(value) == synthesis::synth_record(
            document_model(structs@),
            index as int,
            visiting(old(on_path)@),
        ).json,
        diagnostics_model(final(notes)@) == diagnostics_model(old(notes)@)
            + synthesis::synth_record(
            document_model(structs@),
            index as int,
            visiting(old(on_path)@),
        ).notes,
    decreases
            unvisited(structs@.len(), visiting(old(on_path)@).insert(index as int)).len(),
            3int,
            0int,
{
    let ghost doc = document_model(structs@);
    let ghost before = diagnostics_model(notes@);
    let ghost inside = visiting(on_path@).insert(index as int);
    on_path.set(index, true);
    assert(visiting(on_path@) =~= inside);
    let root = &structs[index];
    let ghost fields = fields_model(root.fields@);
    assert(doc[index as int].fields == fields);
    let mut map = json::new_map();
    let mut i: usize = 0;
    assert(diagnostics_model(notes@) =~= before + Seq::<DiagnosticModel>::empty());
    while i < root.fields.len()
        invariant
            i <= root.fields.len(),
            index < structs.len(),
            on_path.len() == structs.len(),
            on_path@ == old(on_path)@.update(index as int, true),
            visiting(on_path@) == inside,
            inside == visiting(old(on_path)@).insert(index as int),
            root == &structs[index as int],
            fields == fields_model(root.fields@),
            doc == document_model(structs@),
            json_members(map) == synthesis::synth_fields(doc, fields.take(i as int), inside).members,
            diagnostics_model(notes@) == before + synthesis::synth_fields(
                doc,
                fields.take(i as int),
                inside,
            ).notes,
        decreases root.fields.len() - i,
    {
        let field = &root.fields[i];
        let ghost sofar = synthesis::synth_fields(doc, fields.take(i as int), inside);
        proof {
            assert(fields.take(i + 1).drop_last() =~= fields.take(i as int));
            assert(fields.take(i + 1).last() == field@);
        }
        let value = build_value(structs, &field.ty, on_path, notes);
        proof {
            let step = synthesis::synth_type(doc, field@.ty, inside);
            assert(diagnostics_model(notes@) =~= before + (sofar.notes + step.notes));
        }
        json::insert(&mut map, field.name.clone(), value);
        i += 1;
    }
    assert(fields.take(i as int) =~= fields);
    on_path.set(index, false);
    assert(on_path@ =~= old(on_path)@);
    json::object(map)
}

/// A placeholder value and the notes on how it came about.
#[derive(Debug)]
pub struct Placeholder {
    pub value: serde_json::Value,
    pub diagnostics: Vec<Diagnostic>,
}

/// The JSON text of a placeholder and the notes on how it came about.
#[derive(Debug, Clone, PartialEq, Eq)]
pub struct Rendered {
    pub json: String,
    pub diagnostics: Vec<Diagnostic>,
}

/// What is to be done with the result of a compilation.
#[derive(Debug, Clone, PartialEq, Eq)]
pub enum Action {
    /// No output was asked for.
    Nothing,
    /// Print the JSON text.
    Print(Rendered),
    /// Write the JSON text to the file beside the source.
    Write(Rendered),
}

/// The placeholder of a document with the record at `root` as its root. A
/// document that has no record at `root` gives an empty object.
pub fn build_placeholder(structs: &[Struct], root: usize) -> (result: Placeholder)
    ensures
        json_value(result.value) == synthesis::placeholder(
            document_model(structs@),
            root as int,
        ).json,
        diagnostics_model(result.diagnostics@) == synthesis::placeholder(
            document_model(structs@),
            root as int,
        ).notes,
{
    let mut diagnostics: Vec<Diagnostic> = Vec::new();
    assert(diagnostics_model(diagnostics@) =~= Seq::empty());
    if root >= structs.len() {
        return Placeholder { value: json::object(json::new_map()), diagnostics };
    }
    let mut on_path: Vec<bool> = Vec::new();
    while on_path.len() < structs.len()
        invariant
            on_path.len() <= structs.len(),
            forall|i: int| 0 <= i < on_path.len() ==> !on_path[i],
        decreases structs.len() - on_path.len(),
    {
        on_path.push(false);
    }
    assert(visiting(on_path@) =~= Set::empty());
    let value = build_record(structs, root, &mut on_path, &mut diagnostics);
    assert(diagnostics_model(diagnostics@) =~= synthesis::placeholder(
        document_model(structs@),
        root as int,
    ).notes);
    Placeholder { value, diagnostics }
}

/// The JSON text of a document's placeholder: `{}` for a document without
/// records, the pretty-printed placeholder of the last record otherwise.
pub open spec fn output_text(doc: Seq<StructModel>) -> Seq<char> {
    if doc.len() == 0 {
        "{}"@
    } else {
        pretty_text(synthesis::document_placeholder(doc).json)
    }
}

/// The notes that go with [`output_text`].
pub open spec fn output_notes(doc: Seq<StructModel>) -> Seq<DiagnosticModel> {
    if doc.len() == 0 {
        Seq::empty()
    } else {
        synthesis::document_placeholder(doc).notes
    }
}

/// Whether `rendered` is the output of the document `doc`.
pub open spec fn renders(rendered: Rendered, doc: Seq<StructModel>) -> bool {
    &&& rendered.json@ == output_text(doc)
    &&& diagnostics_model(rendered.diagnostics@) == output_notes(doc)
}

/// Takes what the JSON printer gave for a placeholder: its text goes out
/// with the notes, its failure becomes [`CompileError::Serialize`].
pub fn finish_output(
    printed: Result<String, serde_json::Error>,
    diagnostics: Vec<Diagnostic>,
) -> (result: Result<Rendered, CompileError>)
    ensures
        match printed {
            Ok(text) => result matches Ok(rendered) && rendered.json == text
                && rendered.diagnostics == diagnostics,
            Err(_) => result matches Err(error) && error@ == CompileErrorModel::Serialize,
        },
{
    match printed {
        Ok(json) => Ok(Rendered { json, diagnostics }),
        Err(_) => Err(CompileError::Serialize),
    }
}

/// The placeholder output of a document: that of its last record, as
/// pretty-printed JSON text, with the notes of the synthesis. A document
/// without records gives `{}`. Every document has its output: the error of
/// the result is there for the printer, which does not fail on a
/// placeholder.
pub fn generate_json_output(structs: &[Struct]) -> (result: Result<Rendered, CompileError>)
    ensures
        result matches Ok(rendered) && renders(rendered, document_model(structs@)),
{
    if structs.len() == 0 {
        let diagnostics: Vec<Diagnostic> = Vec::new();
        assert(diagnostics_model(diagnostics@) =~= Seq::empty());
        return Ok(Rendered { json: "{}".to_owned(), diagnostics });
    }
    let root = build_placeholder(structs, structs.len() - 1);
    let printed = json::to_string_pretty(&root.value);
    finish_output(printed, root.diagnostics)
}

/// Compiles a source text as the command line asks. The text is parsed: a
/// text that is no document gives its first error, and nothing else fails.
/// Without the JSON flag nothing is to be done. With it the output of the
/// document is handed out: to be written to a file where that is asked
/// for, to be printed otherwise.
pub fn compile(cli: &Cli, source: &str) -> (result: Result<Action, CompileError>)
    ensures
        match grammar::parse_source(source@) {
            Err(error) => result matches Err(failure) && failure@ == CompileErrorModel::Parse(
                error,
            ),
            Ok(doc) => match result {
                Ok(Action::Nothing) => !cli.json,
                Ok(Action::Print(rendered)) => cli.json && !cli.pwd && renders(rendered, doc),
                Ok(Action::Write(rendered)) => cli.json && cli.pwd && renders(rendered, doc),
                Err(_) => false,
            },
        },
{
    let structs = match parse_source(source) {
        Ok(structs) => structs,
        Err(error) => {
            return Err(CompileError::Parse(error));
        },
    };
    if !cli.json {
        return Ok(Action::Nothing);
    }
    let rendered = match generate_json_output(structs.as_slice()) {
        Ok(rendered) => rendered,
        Err(error) => {
            return Err(error);
        },
    };
    if cli.pwd {
        Ok(Action::Write(rendered))
    } else {
        Ok(Action::Print(rendered))
    }
}

/// A source text of nothing but whitespace, the empty text among them, is
/// the empty document, and the output of the empty document is `{}`.
pub proof fn lemma_blank_source(input: Seq<char>)
    requires
        forall|i: int| 0 <= i < input.len() ==> char_is_whitespace(#[trigger] input[i]),
    ensures
        grammar::parse_source(input) == Ok::<Seq<StructModel>, ParseErrorModel>(
            Seq::empty(),
        ),
        output_text(Seq::empty()) == "{}"@,
        output_notes(Seq::empty()) == Seq::<DiagnosticModel>::empty(),
{
    lemma_skip_whitespace(input, 0);
}

/// Two calls of [`generate_json_output`] on one document give the same
/// output: both give a text, the texts are the same, and so are the notes.
pub proof fn lemma_output_is_repeatable(
    structs: &[Struct],
    first: Result<Rendered, CompileError>,
    second: Result<Rendered, CompileError>,
)
    requires
        call_ensures(generate_json_output, (structs,), first),
        call_ensures(generate_json_output, (structs,), second),
    ensures
        first matches Ok(one) && second matches Ok(other) && one.json@ == other.json@
            && diagnostics_model(one.diagnostics@) == diagnostics_model(other.diagnostics@),
{
}

/// Two calls of [`build_placeholder`] on one document and one root give
/// values that hold the same, and the same notes.
pub proof fn lemma_placeholder_is_repeatable(
    structs: &[Struct],
    root: usize,
    first: Placeholder,
    second: Placeholder,
)
    requires
        call_ensures(build_placeholder, (structs, root), first),
        call_ensures(build_placeholder, (structs, root), second),
    ensures
        json_value(first.value) == json_value(second.value),
        diagnostics_model(first.diagnostics@) == diagnostics_model(second.diagnostics@),
{
}

/// The output does not read the decorators: documents that differ in
/// nothing but the decorators of their records have the same text and the
/// same notes.
pub proof fn lemma_output_ignores_decorators(first: Seq<StructModel>, second: Seq<StructModel>)
    requires
        synthesis::same_records(first, second),
    ensures
        output_text(first) == output_text(second),
        output_notes(first) == output_notes(second),
{
    if first.len() > 0 {
        synthesis::lemma_record_ignores_decorators(first, second, first.len() - 1, Set::empty());
    }
}

} // verus!
