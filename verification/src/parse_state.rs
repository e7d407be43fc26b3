//! The tree-construction state an HTML parser carries: the insertion mode,
//! the stack of open elements and the related element pointers and flags.
//! The present tokenizer does not drive this state machine yet; the state is
//! tracked so a conformance-grade tree builder can take it over.

use vstd::prelude::*;

verus! {

/// Placeholder for the elements the tree-construction stage will track.
struct Element {}

/// The insertion mode: the state variable that controls the primary
/// operation of the tree-construction stage.
#[allow(dead_code)]
enum InsertionMode {
    Initial,
    BeforeHtml,
    BeforeHead,
    InHead,
    InHeadNoscript,
    AfterHead,
    InBody,
    Text,
    InTable,
    InTableText,
    InCaption,
    InColumnGroup,
    InTableBody,
    InRow,
    InCell,
    InSelect,
    InSelectInTable,
    InTemplate,
    AfterBody,
    InFrameset,
    AfterFrameset,
    AfterAfterBody,
    AfterAfterFrameset,
}

/// Whether scripting is enabled for the document the parser works on.
#[allow(dead_code)]
enum Scripting {
    Enabled,
    Disabled,
}

/// Whether a `frameset` may still replace the body.
#[allow(dead_code)]
enum FramesetOk {
    Allowed,
    NotAllowed,
}

/// The parse state of the tree-construction stage.
pub struct ParseState {
    /// The insertion mode controls the primary operation of tree
    /// construction.
    insertion_mode: InsertionMode,
    /// The stack of open elements; the most recently opened element stands
    /// last.
    open_elements: Vec<Element>,
    /// The list of active formatting elements, for mis-nested formatting
    /// tags.
    active_formatting_elements: Vec<Element>,
    /// Set once a `head` element has been parsed.
    head: Option<Element>,
    /// The last `form` element opened and not yet closed.
    form: Option<Element>,
    /// Whether scripting was enabled when the parser was created.
    scripting: Scripting,
    /// Set to not-ok after certain tokens are seen.
    frameset_ok: FramesetOk,
}

impl ParseState {
    /// The state a parser starts from: the initial insertion mode, empty
    /// element stacks, no element pointers, scripting disabled and the
    /// frameset flag ok.
    pub closed spec fn is_initial(self) -> bool {
        &&& self.insertion_mode is Initial
        &&& self.open_elements@.len() == 0
        &&& self.active_formatting_elements@.len() == 0
        &&& self.head is None
        &&& self.form is None
        &&& self.scripting is Disabled
        &&& self.frameset_ok is Allowed
    }
}

impl Default for ParseState {
    fn default() -> (r: Self)
        ensures
            r.is_initial(),
    {
        ParseState {
            insertion_mode: InsertionMode::Initial,
            open_elements: Vec::new(),
            active_formatting_elements: Vec::new(),
            head: None,
            form: None,
            scripting: Scripting::Disabled,
            frameset_ok: FramesetOk::Allowed,
        }
    }
}

} // verus!
