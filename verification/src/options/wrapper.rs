//! The `apply` modes of a rule's actions and of its filters, together.

use vstd::prelude::*;
use crate::options::apply::{Apply, ApplyView, ApplyParseError, AsOption, opt_view, combined};

verus! {

/// The modes for a rule's actions and for its filters.
#[derive(Debug, PartialEq, Eq)]
pub struct ApplyWrapper {
    pub actions: Option<Apply>,
    pub filters: Option<Apply>,
}

/// The mathematical value of an `ApplyWrapper`.
pub struct ApplyWrapperView {
    pub actions: Option<ApplyView>,
    pub filters: Option<ApplyView>,
}

impl View for ApplyWrapper {
    type V = ApplyWrapperView;

    open spec fn view(&self) -> ApplyWrapperView {
        ApplyWrapperView { actions: opt_view(self.actions), filters: opt_view(self.filters) }
    }
}

/// The view of an optional pair of modes.
pub open spec fn opt_wrapper_view(o: Option<ApplyWrapper>) -> Option<ApplyWrapperView> {
    match o {
        Some(w) => Some(w@),
        None => None,
    }
}

/// What combining two optional pairs of modes gives: the default pair when
/// both are missing, the one that is there when one is missing, and else
/// the actions and the filters combined each on their own.
pub open spec fn wrappers_combined(
    l: Option<ApplyWrapperView>,
    r: Option<ApplyWrapperView>,
    res: Option<ApplyWrapperView>,
) -> bool {
    match (l, r) {
        (None, None) => res == Some(ApplyWrapperView { actions: Some(ApplyView::All), filters: Some(ApplyView::All) }),
        (Some(a), None) => res == Some(a),
        (None, Some(b)) => res == Some(b),
        (Some(a), Some(b)) => {
            &&& res is Some
            &&& combined(a.actions, b.actions, res.unwrap().actions)
            &&& combined(a.filters, b.filters, res.unwrap().filters)
        },
    }
}

fn copy_opt(o: &Option<Apply>) -> (r: Option<Apply>)
    ensures
        opt_view(r) == opt_view(*o),
{
    match o {
        Some(a) => Some(a.copy()),
        None => None,
    }
}

impl ApplyWrapper {
    /// Both modes left out.
    pub fn default_none() -> (r: ApplyWrapper)
        ensures
            r@ == (ApplyWrapperView { actions: None, filters: None }),
    {
        ApplyWrapper { actions: None, filters: None }
    }

    /// Both modes `All`.
    pub fn default_some() -> (r: ApplyWrapper)
        ensures
            r@ == (ApplyWrapperView { actions: Some(ApplyView::All), filters: Some(ApplyView::All) }),
    {
        ApplyWrapper { actions: Some(Apply::All), filters: Some(Apply::All) }
    }

    /// The default pair: both modes `All`.
    pub fn default() -> (r: ApplyWrapper)
        ensures
            r@ == (ApplyWrapperView { actions: Some(ApplyView::All), filters: Some(ApplyView::All) }),
    {
        Self::default_some()
    }

    /// A fresh copy of the pair.
    pub fn copy(&self) -> (r: ApplyWrapper)
        ensures
            r@ == self@,
    {
        ApplyWrapper { actions: copy_opt(&self.actions), filters: copy_opt(&self.filters) }
    }

    /// The pair that one mode stands for: the filters take the mode, and the
    /// actions take its "all" form (`All` for `Any`, `AllOf` for `AnyOf`).
    pub fn from_apply(val: Apply) -> (r: ApplyWrapper)
        ensures
            r@.filters == Some(val@),
            r@.actions == Some(match val@ {
                ApplyView::All => ApplyView::All,
                ApplyView::Any => ApplyView::All,
                ApplyView::AllOf(v) => ApplyView::AllOf(v),
                ApplyView::AnyOf(v) => ApplyView::AllOf(v),
            }),
    {
        match val {
            Apply::All => ApplyWrapper { actions: Some(Apply::All), filters: Some(Apply::All) },
            Apply::Any => ApplyWrapper { actions: Some(Apply::All), filters: Some(Apply::Any) },
            Apply::AllOf(v) => {
                let w = crate::options::apply::copy_indices(&v);
                ApplyWrapper { actions: Some(Apply::AllOf(w)), filters: Some(Apply::AllOf(v)) }
            },
            Apply::AnyOf(v) => {
                let w = crate::options::apply::copy_indices(&v);
                ApplyWrapper { actions: Some(Apply::AllOf(w)), filters: Some(Apply::AnyOf(v)) }
            },
        }
    }

    /// Reads `all` or `any` and takes the pair it stands for.
    pub fn from_str(s: &str) -> (r: Result<ApplyWrapper, ApplyParseError>)
        ensures
            s@ == "all"@ ==> (r matches Ok(w) && w@ == (ApplyWrapperView { actions: Some(ApplyView::All), filters: Some(ApplyView::All) })),
            s@ == "any"@ ==> (r matches Ok(w) && w@ == (ApplyWrapperView { actions: Some(ApplyView::All), filters: Some(ApplyView::Any) })),
            s@ != "all"@ && s@ != "any"@ ==> r == Err::<ApplyWrapper, ApplyParseError>(ApplyParseError::UnknownVariant),
    {
        match Apply::from_str(s) {
            Ok(a) => Ok(Self::from_apply(a)),
            Err(e) => Err(e),
        }
    }
}

impl AsOption<ApplyWrapper> for Option<ApplyWrapper> {
    fn combine(&self, rhs: &Self) -> (res: Self)
        ensures
            wrappers_combined(opt_wrapper_view(*self), opt_wrapper_view(*rhs), opt_wrapper_view(res)),
    {
        match (self, rhs) {
            (None, None) => Some(ApplyWrapper::default()),
            (Some(lhs), None) => Some(lhs.copy()),
            (None, Some(rhs)) => Some(rhs.copy()),
            (Some(lhs), Some(rhs)) => Some(ApplyWrapper {
                actions: lhs.actions.combine(&rhs.actions),
                filters: lhs.filters.combine(&rhs.filters),
            }),
        }
    }
}

} // verus!
