//! The top-level items of a source text, as the parser of `syn` reads them.

use quote::ToTokens;
use vstd::prelude::*;

verus! {

/// The mathematical value of a [`SourceItem`].
pub enum SourceItemView {
    Function { name: Seq<char>, body: Seq<char> },
    Other,
}

/// An item at the top level of a source text, as far as the extraction of
/// functions reads it.
#[derive(PartialEq, Eq, Debug)]
pub enum SourceItem {
    /// A free-standing function: its identifier and its body block, written
    /// out token by token.
    Function { name: String, body: String },
    /// Any other item.
    Other,
}

impl View for SourceItem {
    type V = SourceItemView;

    open spec fn view(&self) -> SourceItemView {
        match self {
            SourceItem::Function { name, body } => SourceItemView::Function {
                name: name@,
                body: body@,
            },
            SourceItem::Other => SourceItemView::Other,
        }
    }
}

impl DeepView for SourceItem {
    type V = SourceItemView;

    open spec fn deep_view(&self) -> SourceItemView {
        self.view()
    }
}

/// `syn::Error`, the error with which `syn` rejects a source text.  The
/// verifier carries such a value through without looking inside.
#[verifier::external_type_specification]
#[verifier::external_body]
pub struct ExSynError(syn::Error);

/// The top-level items that `syn::parse_file` reads from the source text
/// `code`, in the order of declaration, and `None` where it rejects `code`.
pub uninterp spec fn parsed_items(code: Seq<char>) -> Option<Seq<SourceItemView>>;

/// Parses `code` as a whole source file and hands out its top-level items.
///
/// Trusted: the body calls `syn::parse_file` and converts each item of the
/// parsed file, one for one and in order.  A function item gives its
/// identifier (`Ident::to_string`) and its body block as `quote::ToTokens`
/// and `TokenStream::to_string` write it out; every other item gives
/// [`SourceItem::Other`].  All of this is a function of `code` alone, and the
/// contract only names it: the call succeeds exactly where
/// [`parsed_items`] is `Some`, and then returns those items.
///
/// `syn` parses by recursive descent, and the syntax tree is written out and
/// dropped recursively as well.  A text that nests deeper than the stack of
/// the running thread allows ends the process; how deep that is depends on
/// the machine, so no condition on `code` leaves such texts out.
#[verifier::external_body]
pub(crate) fn parse_items(code: &str) -> (parsed: Result<Vec<SourceItem>, syn::Error>)
    ensures
        match parsed {
            Ok(items) => parsed_items(code@) == Some(items.deep_view()),
            Err(_) => parsed_items(code@) is None,
        },
{
    let file = syn::parse_file(code)?;
    Ok(file.items.into_iter().map(|item| match item {
        syn::Item::Fn(function) => SourceItem::Function {
            name: function.sig.ident.to_string(),
            body: function.block.to_token_stream().to_string(),
        },
        _ => SourceItem::Other,
    }).collect())
}

/// The message of a parse error.
///
/// Trusted: the body calls `to_string` on `syn::Error`, which writes out the
/// message of the error.  Nothing is claimed of the text.
#[verifier::external_body]
pub(crate) fn error_message(error: &syn::Error) -> (message: String) {
    error.to_string()
}

} // verus!
