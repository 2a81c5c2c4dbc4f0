//! Laboratory-root admission. Experimental state must never share a root with
//! production.

use crate::error::{BrainError, BrainResult, ErrorView};
use crate::paths::{two_prefixes_nest, FilePath, PartModel, PathModel};
use vstd::prelude::*;

verus! {

/// The admitted roots of a laboratory.
#[derive(Debug)]
pub struct LabRoots {
    pub lab_root: FilePath,
    pub state_root: FilePath,
    pub artifact_root: FilePath,
}

/// The model of [`LabRoots`].
pub struct LabRootsModel {
    pub lab_root: PathModel,
    pub state_root: PathModel,
    pub artifact_root: PathModel,
}

impl View for LabRoots {
    type V = LabRootsModel;

    open spec fn view(&self) -> LabRootsModel {
        LabRootsModel {
            lab_root: self.lab_root@,
            state_root: self.state_root@,
            artifact_root: self.artifact_root@,
        }
    }
}

impl LabRootsModel {
    /// State and artifacts live in two different places inside the laboratory
    /// and outside production, and production lives outside of both.
    pub open spec fn isolated_from(self, production: PathModel) -> bool {
        &&& self.state_root.starts_with(self.lab_root)
        &&& self.artifact_root.starts_with(self.lab_root)
        &&& self.state_root != self.artifact_root
        &&& !self.state_root.starts_with(production)
        &&& !self.artifact_root.starts_with(production)
        &&& !production.starts_with(self.state_root)
        &&& !production.starts_with(self.artifact_root)
    }
}

/// The model of a path that may be unavailable.
pub open spec fn resolved(path: Option<FilePath>) -> Option<PathModel> {
    match path {
        Some(path) => Some(path@),
        None => None,
    }
}

/// What opening the laboratory gives, from the canonical form of each root.
pub open spec fn opened(
    lab: Result<PathModel, ErrorView>,
    state: Option<PathModel>,
    artifact: Option<PathModel>,
    production: Option<PathModel>,
) -> Result<LabRootsModel, ErrorView> {
    if lab is Err {
        Err(lab->Err_0)
    } else if state is None {
        Err(ErrorView::Invalid("laboratory_state_root_unavailable"@))
    } else if artifact is None {
        Err(ErrorView::Invalid("laboratory_artifact_root_unavailable"@))
    } else if production is None {
        Err(ErrorView::Invalid("production_root_unavailable"@))
    } else {
        let roots = LabRootsModel {
            lab_root: lab->Ok_0,
            state_root: state->0,
            artifact_root: artifact->0,
        };
        if roots.isolated_from(production->0) {
            Ok(roots)
        } else {
            Err(ErrorView::Integrity("laboratory_roots_not_isolated"@))
        }
    }
}

impl LabRoots {
    /// Admits a laboratory.
    ///
    /// `lab_root` is the outcome of the private-root verification; the other
    /// three are canonical paths, absent where the file system gives none.
    pub fn open(
        lab_root: BrainResult<FilePath>,
        state_root: Option<FilePath>,
        artifact_root: Option<FilePath>,
        production_root: Option<FilePath>,
    ) -> (roots: BrainResult<LabRoots>)
        ensures
            crate::order::outcome(roots) == opened(
                crate::order::outcome(lab_root),
                resolved(state_root),
                resolved(artifact_root),
                resolved(production_root),
            ),
    {
        let lab_root = match lab_root {
            Ok(path) => path,
            Err(error) => return Err(error),
        };
        let state_root = match state_root {
            Some(path) => path,
            None => return Err(BrainError::invalid("laboratory_state_root_unavailable")),
        };
        let artifact_root = match artifact_root {
            Some(path) => path,
            None => return Err(BrainError::invalid("laboratory_artifact_root_unavailable")),
        };
        let production_root = match production_root {
            Some(path) => path,
            None => return Err(BrainError::invalid("production_root_unavailable")),
        };
        if !state_root.starts_with(&lab_root) || !artifact_root.starts_with(&lab_root)
            || state_root.same(&artifact_root) || state_root.starts_with(&production_root)
            || artifact_root.starts_with(&production_root) || production_root.starts_with(&state_root)
            || production_root.starts_with(&artifact_root) {
            return Err(BrainError::integrity("laboratory_roots_not_isolated"));
        }
        Ok(LabRoots { lab_root, state_root, artifact_root })
    }
}

/// A laboratory that opens shares no path with production: what lies at or below
/// the production root lies neither at nor below the state root, nor at or below
/// the artifact root.
pub proof fn open_laboratory_shares_nothing_with_production(
    lab: Result<PathModel, ErrorView>,
    state: Option<PathModel>,
    artifact: Option<PathModel>,
    production: Option<PathModel>,
    inner: PathModel,
)
    requires
        opened(lab, state, artifact, production) is Ok,
        inner.starts_with(production->0),
    ensures
        !inner.starts_with(opened(lab, state, artifact, production)->Ok_0.state_root),
        !inner.starts_with(opened(lab, state, artifact, production)->Ok_0.artifact_root),
{
    let roots = opened(lab, state, artifact, production)->Ok_0;
    if inner.starts_with(roots.state_root) {
        two_prefixes_nest(inner, production->0, roots.state_root);
    }
    if inner.starts_with(roots.artifact_root) {
        two_prefixes_nest(inner, production->0, roots.artifact_root);
    }
}

/// Whether one path leads on from another: what is left of it are further parts.
pub open spec fn leads_on_from(inner: PathModel, outer: PathModel) -> bool {
    exists|rest: Seq<PartModel>| #[trigger] (outer.parts + rest) == inner.parts
}

proof fn lemma_leading_on(inner: PathModel, outer: PathModel)
    ensures
        leads_on_from(inner, outer) <==> inner.starts_with(outer),
{
    if inner.starts_with(outer) {
        let rest = inner.parts.skip(outer.parts.len() as int);
        assert(outer.parts + rest == inner.parts);
    }
    if leads_on_from(inner, outer) {
        let rest = choose|rest: Seq<PartModel>| #[trigger] (outer.parts + rest) == inner.parts;
        assert((outer.parts + rest).take(outer.parts.len() as int) == outer.parts);
    }
}

/// A laboratory opens exactly where every root is known, the state and the artifacts
/// lie inside the laboratory and apart from each other, and neither shares anything
/// with production. What opens are the roots that were given, and each root that is
/// not known is refused under its own name, the laboratory's before the others'.
pub proof fn laboratories_open_with_the_roots_that_were_given(
    lab: Result<PathModel, ErrorView>,
    state: Option<PathModel>,
    artifact: Option<PathModel>,
    production: Option<PathModel>,
)
    ensures
        opened(lab, state, artifact, production) matches Ok(roots) ==> {
            &&& lab == Ok::<PathModel, ErrorView>(roots.lab_root)
            &&& state == Some(roots.state_root)
            &&& artifact == Some(roots.artifact_root)
        },
        opened(lab, state, artifact, production) is Ok <==> {
            &&& lab is Ok
            &&& state is Some
            &&& artifact is Some
            &&& production is Some
            &&& leads_on_from(state->0, lab->Ok_0)
            &&& leads_on_from(artifact->0, lab->Ok_0)
            &&& state->0 != artifact->0
            &&& !leads_on_from(state->0, production->0)
            &&& !leads_on_from(artifact->0, production->0)
            &&& !leads_on_from(production->0, state->0)
            &&& !leads_on_from(production->0, artifact->0)
        },
        lab matches Err(error) ==> opened(lab, state, artifact, production)
            == Err::<LabRootsModel, ErrorView>(error),
        lab is Ok && state is None ==> opened(lab, state, artifact, production)
            == Err::<LabRootsModel, ErrorView>(
            ErrorView::Invalid("laboratory_state_root_unavailable"@),
        ),
        lab is Ok && state is Some && artifact is None ==> opened(lab, state, artifact, production)
            == Err::<LabRootsModel, ErrorView>(
            ErrorView::Invalid("laboratory_artifact_root_unavailable"@),
        ),
        lab is Ok && state is Some && artifact is Some && production is None ==> opened(
            lab,
            state,
            artifact,
            production,
        ) == Err::<LabRootsModel, ErrorView>(ErrorView::Invalid("production_root_unavailable"@)),
        lab is Ok && state is Some && artifact is Some && production is Some && opened(
            lab,
            state,
            artifact,
            production,
        ) is Err ==> opened(lab, state, artifact, production) == Err::<LabRootsModel, ErrorView>(
            ErrorView::Integrity("laboratory_roots_not_isolated"@),
        ),
{
    if lab is Ok && state is Some && artifact is Some && production is Some {
        lemma_leading_on(state->0, lab->Ok_0);
        lemma_leading_on(artifact->0, lab->Ok_0);
        lemma_leading_on(state->0, production->0);
        lemma_leading_on(artifact->0, production->0);
        lemma_leading_on(production->0, state->0);
        lemma_leading_on(production->0, artifact->0);
    }
}

} // verus!
