//! The plain values that stores speak in.

use vstd::prelude::*;
use vstd::string::*;

verus! {

/// Why a store operation failed.
#[derive(Debug)]
pub enum StoreError {
    /// What was asked for is not there.
    NotFound(String),
    /// The operation does not fit the present state.
    Conflict(String),
    /// The input is refused.
    Rejected(String),
    /// Reading or writing failed.
    Io(String),
}

/// A [`StoreError`] with its text as a sequence of characters.
#[verifier::ext_equal]
pub enum StoreErrorView {
    NotFound(Seq<char>),
    Conflict(Seq<char>),
    Rejected(Seq<char>),
    Io(Seq<char>),
}

impl View for StoreError {
    type V = StoreErrorView;

    open spec fn view(&self) -> StoreErrorView {
        match self {
            StoreError::NotFound(s) => StoreErrorView::NotFound(s@),
            StoreError::Conflict(s) => StoreErrorView::Conflict(s@),
            StoreError::Rejected(s) => StoreErrorView::Rejected(s@),
            StoreError::Io(s) => StoreErrorView::Io(s@),
        }
    }
}

/// The hash algorithm that an address is made with.
#[derive(Debug)]
pub enum Axis {
    /// SHA-256, which every store computes.
    Sha256,
    /// Another algorithm, by its name.
    Named(String),
}

impl View for Axis {
    type V = Seq<char>;

    /// The name of the algorithm, as it stands in front of an address.
    open spec fn view(&self) -> Seq<char> {
        match self {
            Axis::Sha256 => "sha256"@,
            Axis::Named(name) => name@,
        }
    }
}

impl Axis {
    /// The name of the algorithm, as it stands in front of an address.
    pub fn as_str(&self) -> (name: &str)
        ensures
            name@ == self@,
    {
        match self {
            Axis::Sha256 => "sha256",
            Axis::Named(name) => name.as_str(),
        }
    }
}

/// A resolved namespace.
#[derive(Debug)]
pub struct NamespaceRef {
    id: String,
}

impl View for NamespaceRef {
    type V = Seq<char>;

    /// The identifier of the namespace.
    closed spec fn view(&self) -> Seq<char> {
        self.id@
    }
}

impl NamespaceRef {
    /// The namespace with the given identifier.
    pub fn new(id: String) -> (ns: Self)
        ensures
            ns@ == id@,
    {
        NamespaceRef { id }
    }

    /// The identifier of the namespace.
    pub fn as_str(&self) -> (id: &str)
        ensures
            id@ == self@,
    {
        self.id.as_str()
    }
}

/// The name of an axis is told as it is: that of SHA-256 by itself, any other as given.
pub proof fn law_axis_name(axis: &Axis, name: &str)
    requires
        call_ensures(Axis::as_str, (axis,), name),
    ensures
        *axis matches Axis::Sha256 ==> name@ == seq!['s', 'h', 'a', '2', '5', '6'],
        *axis matches Axis::Named(given) ==> name@ == given@,
        axis@ == name@,
{
    reveal_strlit("sha256");
    assert("sha256"@ =~= seq!['s', 'h', 'a', '2', '5', '6']);
}

/// A namespace is told by the identifier that it was made with.
pub proof fn law_namespace_identifier(id: String, ns: NamespaceRef, told: &str)
    requires
        call_ensures(NamespaceRef::new, (id,), ns),
        call_ensures(NamespaceRef::as_str, (&ns,), told),
    ensures
        told@ == id@,
        ns@ == id@,
{
}

/// The view of an error keeps its kind and its text.
pub proof fn law_error_view(e: StoreError, text: Seq<char>)
    ensures
        e@ == StoreErrorView::NotFound(text) <==> (e matches StoreError::NotFound(t) && t@ == text),
        e@ == StoreErrorView::Conflict(text) <==> (e matches StoreError::Conflict(t) && t@ == text),
        e@ == StoreErrorView::Rejected(text) <==> (e matches StoreError::Rejected(t) && t@ == text),
        e@ == StoreErrorView::Io(text) <==> (e matches StoreError::Io(t) && t@ == text),
{
}

} // verus!
