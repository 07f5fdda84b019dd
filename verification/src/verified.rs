//! Content together with an address that was checked against it or computed
//! from it.

use crate::types::Axis;
use vstd::prelude::*;
use vstd::slice::slice_to_vec;
use vstd::string::*;

verus! {

/// How addresses are checked and computed. Nothing is assumed of the algorithms.
pub trait ContentAddressing: Send + Sync {
    /// Checks a claimed address against the content: the axis of the address
    /// where it is one of the content, else the text that says why it is not.
    fn verify_content(&self, claimed: &str, content: &[u8]) -> Result<Axis, String>;

    /// Computes the address of the content; the text says why there is none.
    fn compute_content(&self, axis: &Axis, content: &[u8]) -> Result<String, String>;

    /// Whether the content has the address; the text says why that cannot be told.
    fn verify_kappa(&self, kappa: &str, content: &[u8]) -> Result<bool, String>;
}

/// Content together with one of its addresses. There is no other way to make one
/// than checking a claimed address or computing one.
pub struct VerifiedContent {
    axis: Axis,
    kappa: String,
    content: Vec<u8>,
}

/// A [`VerifiedContent`] as a mathematical value.
#[verifier::ext_equal]
pub struct ContentView {
    /// The name of the algorithm of the address.
    pub axis: Seq<char>,
    /// The address.
    pub kappa: Seq<char>,
    /// The content.
    pub content: Seq<u8>,
}

impl View for VerifiedContent {
    type V = ContentView;

    closed spec fn view(&self) -> ContentView {
        ContentView { axis: self.axis@, kappa: self.kappa@, content: self.content@ }
    }
}

/// Checking a claimed address came out as `outcome`: the content under that very
/// address, or why not.
pub open spec fn content_checked<S: ContentAddressing + ?Sized>(
    store: &S,
    claimed: &str,
    content: Seq<u8>,
    outcome: Result<VerifiedContent, String>,
) -> bool {
    exists|bytes: &[u8], checked: Result<Axis, String>|
        bytes@ == content && #[trigger] call_ensures(
            S::verify_content,
            (store, claimed, bytes),
            checked,
        ) && match checked {
            Ok(axis) => outcome matches Ok(v) && v@ == (ContentView {
                axis: axis@,
                kappa: claimed@,
                content,
            }),
            Err(text) => outcome == Err::<VerifiedContent, String>(text),
        }
}

/// Computing the address of an axis came out as `outcome`: the content under the
/// computed address, or why not.
pub open spec fn content_computed<S: ContentAddressing + ?Sized>(
    store: &S,
    axis: Axis,
    content: Seq<u8>,
    outcome: Result<VerifiedContent, String>,
) -> bool {
    exists|bytes: &[u8], computed: Result<String, String>|
        bytes@ == content && #[trigger] call_ensures(
            S::compute_content,
            (store, &axis, bytes),
            computed,
        ) && match computed {
            Ok(kappa) => outcome matches Ok(v) && v@ == (ContentView {
                axis: axis@,
                kappa: kappa@,
                content,
            }),
            Err(text) => outcome == Err::<VerifiedContent, String>(text),
        }
}

impl VerifiedContent {
    /// The address was computed from the content.
    pub open spec fn is_computed<S: ContentAddressing + ?Sized>(self, store: &S) -> bool {
        exists|axis: Axis| #[trigger]
            content_computed(
                store,
                axis,
                self@.content,
                Ok::<VerifiedContent, String>(self),
            )
    }

    /// The address was checked against the content.
    pub open spec fn is_checked<S: ContentAddressing + ?Sized>(self, store: &S) -> bool {
        exists|claimed: &str| #[trigger]
            content_checked(
                store,
                claimed,
                self@.content,
                Ok::<VerifiedContent, String>(self),
            )
    }

    /// Check a claimed address against the content.
    pub fn verify<S: ContentAddressing + ?Sized>(store: &S, claimed: &str, content: &[u8]) -> (
    outcome: Result<Self, String>)
        ensures
            content_checked(store, claimed, content@, outcome),
            outcome matches Ok(v) ==> {
                &&& v.is_checked(store)
                &&& v@.kappa == claimed@
                &&& v@.content == content@
            },
    {
        match store.verify_content(claimed, content) {
            Ok(axis) => {
                let verified = VerifiedContent {
                    axis,
                    kappa: claimed.to_owned(),
                    content: slice_to_vec(content),
                };
                assert(content_checked(store, claimed, verified@.content, Ok(verified)));
                Ok(verified)
            },
            Err(text) => Err(text),
        }
    }

    /// Compute the address of the content under an axis.
    pub fn compute<S: ContentAddressing + ?Sized>(store: &S, axis: &Axis, content: &[u8]) -> (
    outcome: Result<Self, String>)
        ensures
            content_computed(store, *axis, content@, outcome),
            outcome matches Ok(v) ==> {
                &&& v.is_computed(store)
                &&& v@.axis == axis@
                &&& v@.content == content@
            },
    {
        match store.compute_content(axis, content) {
            Ok(kappa) => {
                let verified = VerifiedContent {
                    axis: Axis::Named(axis.as_str().to_owned()),
                    kappa,
                    content: slice_to_vec(content),
                };
                assert(content_computed(store, *axis, verified@.content, Ok(verified)));
                Ok(verified)
            },
            Err(text) => Err(text),
        }
    }

    /// The algorithm of the address.
    pub fn axis(&self) -> (axis: &Axis)
        ensures
            axis@ == self@.axis,
    {
        &self.axis
    }

    /// The address.
    pub fn kappa(&self) -> (kappa: &str)
        ensures
            kappa@ == self@.kappa,
    {
        self.kappa.as_str()
    }

    /// The content.
    pub fn content(&self) -> (content: &[u8])
        ensures
            content@ == self@.content,
    {
        self.content.as_slice()
    }
}

/// Content whose claimed address holds is told under that address, with the axis that
/// the check named and with all its bytes; a claim that does not hold is refused with
/// the text of the check.
pub proof fn law_claim_is_checked<S: ContentAddressing + ?Sized>(
    store: &S,
    claimed: &str,
    content: &[u8],
    outcome: Result<VerifiedContent, String>,
)
    requires
        call_ensures(VerifiedContent::verify::<S>, (store, claimed, content), outcome),
    ensures
        outcome matches Ok(v) ==> v@.kappa == claimed@ && v@.content == content@ && exists|
            bytes: &[u8],
            axis: Axis,
        |
            bytes@ == content@ && axis@ == v@.axis && #[trigger] call_ensures(
                S::verify_content,
                (store, claimed, bytes),
                Ok::<Axis, String>(axis),
            ),
        outcome matches Err(text) ==> exists|bytes: &[u8]|
            bytes@ == content@ && #[trigger] call_ensures(
                S::verify_content,
                (store, claimed, bytes),
                Err::<Axis, String>(text),
            ),
{
    if let Err(text) = outcome {
        let (bytes, checked) = choose|bytes: &[u8], checked: Result<Axis, String>|
            bytes@ == content@ && #[trigger] call_ensures(
                S::verify_content,
                (store, claimed, bytes),
                checked,
            ) && checked == Err::<Axis, String>(text);
        assert(call_ensures(S::verify_content, (store, claimed, bytes), checked));
    }
}

/// Content is told under the address that was computed for the axis, with all its
/// bytes; where none can be computed, the text of the computation is told.
pub proof fn law_address_is_computed<S: ContentAddressing + ?Sized>(
    store: &S,
    axis: &Axis,
    content: &[u8],
    outcome: Result<VerifiedContent, String>,
)
    requires
        call_ensures(VerifiedContent::compute::<S>, (store, axis, content), outcome),
    ensures
        outcome matches Ok(v) ==> v@.axis == axis@ && v@.content == content@ && exists|
            bytes: &[u8],
            kappa: String,
        |
            bytes@ == content@ && kappa@ == v@.kappa && #[trigger] call_ensures(
                S::compute_content,
                (store, axis, bytes),
                Ok::<String, String>(kappa),
            ),
        outcome matches Err(text) ==> exists|bytes: &[u8]|
            bytes@ == content@ && #[trigger] call_ensures(
                S::compute_content,
                (store, axis, bytes),
                Err::<String, String>(text),
            ),
{
    if let Err(text) = outcome {
        let (bytes, computed) = choose|bytes: &[u8], computed: Result<String, String>|
            bytes@ == content@ && #[trigger] call_ensures(
                S::compute_content,
                (store, axis, bytes),
                computed,
            ) && computed == Err::<String, String>(text);
        assert(call_ensures(S::compute_content, (store, axis, bytes), computed));
    }
}

/// What was checked is handed out as it was handed in.
pub proof fn law_checked_content_is_handed_out<S: ContentAddressing + ?Sized>(
    store: &S,
    claimed: &str,
    content: &[u8],
    verified: VerifiedContent,
    kappa: &str,
    bytes: &[u8],
)
    requires
        call_ensures(
            VerifiedContent::verify::<S>,
            (store, claimed, content),
            Ok::<VerifiedContent, String>(verified),
        ),
        call_ensures(VerifiedContent::kappa, (&verified,), kappa),
        call_ensures(VerifiedContent::content, (&verified,), bytes),
    ensures
        kappa@ == claimed@,
        bytes@ == content@,
{
}

/// What an address was computed for is handed out as it was handed in.
pub proof fn law_computed_content_is_handed_out<S: ContentAddressing + ?Sized>(
    store: &S,
    axis: &Axis,
    content: &[u8],
    verified: VerifiedContent,
    told: &Axis,
    bytes: &[u8],
)
    requires
        call_ensures(
            VerifiedContent::compute::<S>,
            (store, axis, content),
            Ok::<VerifiedContent, String>(verified),
        ),
        call_ensures(VerifiedContent::axis, (&verified,), told),
        call_ensures(VerifiedContent::content, (&verified,), bytes),
    ensures
        told@ == axis@,
        bytes@ == content@,
{
}

} // verus!
