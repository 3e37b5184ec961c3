//! Upgrade annotations a schema carries for its next version, and the
//! plan that projects each type of the previous version onto the
//! current one.
use vstd::prelude::*;
use crate::name::Name;

verus! {

/// What a schema says about a type across an upgrade.
#[derive(Clone, Debug, PartialEq, Eq)]
pub enum UpgradeAnnotation {
    /// The type changed; its values migrate.
    Migrate(Name),
    /// The type `current` is the previous version's `previous`, renamed.
    RenamedFrom { current: Name, previous: Name },
    /// The previous version's type is dropped.
    Drop(Name),
    /// The type changed; the named implementation converts its values.
    Custom { name: Name, implementation: Name },
    /// The previous version's type cannot be carried over.
    Untranslatable(Name),
}

pub enum AnnotationModel {
    Migrate(Seq<char>),
    RenamedFrom(Seq<char>, Seq<char>),
    Drop(Seq<char>),
    Custom(Seq<char>, Seq<char>),
    Untranslatable(Seq<char>),
}

impl UpgradeAnnotation {
    pub open spec fn model(&self) -> AnnotationModel {
        match self {
            UpgradeAnnotation::Migrate(name) => AnnotationModel::Migrate(name.text()),
            UpgradeAnnotation::RenamedFrom { current, previous } => AnnotationModel::RenamedFrom(
                current.text(),
                previous.text(),
            ),
            UpgradeAnnotation::Drop(name) => AnnotationModel::Drop(name.text()),
            UpgradeAnnotation::Custom { name, implementation } => AnnotationModel::Custom(
                name.text(),
                implementation.text(),
            ),
            UpgradeAnnotation::Untranslatable(name) => AnnotationModel::Untranslatable(name.text()),
        }
    }

    /// The type an annotation is about.
    pub fn name(&self) -> (r: &Name)
        ensures
            r.text() == annotation_name(self.model()),
    {
        match self {
            UpgradeAnnotation::Migrate(name) => name,
            UpgradeAnnotation::RenamedFrom { current, .. } => current,
            UpgradeAnnotation::Drop(name) => name,
            UpgradeAnnotation::Custom { name, .. } => name,
            UpgradeAnnotation::Untranslatable(name) => name,
        }
    }

    pub fn duplicate(&self) -> (r: Self)
        ensures
            r.model() == self.model(),
    {
        match self {
            UpgradeAnnotation::Migrate(name) => UpgradeAnnotation::Migrate(name.duplicate()),
            UpgradeAnnotation::RenamedFrom { current, previous } => UpgradeAnnotation::RenamedFrom {
                current: current.duplicate(),
                previous: previous.duplicate(),
            },
            UpgradeAnnotation::Drop(name) => UpgradeAnnotation::Drop(name.duplicate()),
            UpgradeAnnotation::Custom { name, implementation } => UpgradeAnnotation::Custom {
                name: name.duplicate(),
                implementation: implementation.duplicate(),
            },
            UpgradeAnnotation::Untranslatable(name) => UpgradeAnnotation::Untranslatable(
                name.duplicate(),
            ),
        }
    }
}

pub open spec fn annotation_name(a: AnnotationModel) -> Seq<char> {
    match a {
        AnnotationModel::Migrate(name) => name,
        AnnotationModel::RenamedFrom(name, _) => name,
        AnnotationModel::Drop(name) => name,
        AnnotationModel::Custom(name, _) => name,
        AnnotationModel::Untranslatable(name) => name,
    }
}

pub open spec fn annotation_models(annotations: Seq<UpgradeAnnotation>) -> Seq<AnnotationModel> {
    Seq::new(annotations.len(), |i: int| annotations[i].model())
}

/// The schema version an upgrade starts from.
#[derive(Clone, Debug, PartialEq, Eq)]
pub struct Version(String);

impl Version {
    pub closed spec fn text(&self) -> Seq<char> {
        self.0@
    }

    pub fn new(value: &str) -> (r: Self)
        ensures
            r.text() == value@,
    {
        Version(value.to_owned())
    }

    pub fn as_str(&self) -> (r: &str)
        ensures
            r@ == self.text(),
    {
        self.0.as_str()
    }
}

/// The upgrade feature: the version upgraded from, and the annotations
/// about the types that changed.
#[derive(Clone, Debug, PartialEq, Eq)]
pub struct Upgrade {
    version: Version,
    annotations: Vec<UpgradeAnnotation>,
}

impl Upgrade {
    pub closed spec fn annotation_list(&self) -> Seq<AnnotationModel> {
        annotation_models(self.annotations@)
    }

    pub closed spec fn version_text(&self) -> Seq<char> {
        self.version.text()
    }

    pub fn new(version: Version, annotations: Vec<UpgradeAnnotation>) -> (r: Self)
        ensures
            r.version_text() == version.text(),
            r.annotation_list() == annotation_models(annotations@),
    {
        Upgrade { version, annotations }
    }

    pub fn version(&self) -> (r: &Version)
        ensures
            r.text() == self.version_text(),
    {
        &self.version
    }

    pub fn annotations(&self) -> (r: &[UpgradeAnnotation])
        ensures
            annotation_models(r@) == self.annotation_list(),
    {
        self.annotations.as_slice()
    }
}

/// The standard projections that need no annotation.
#[derive(Clone, Copy, Debug, PartialEq, Eq, Structural)]
pub enum StandardProjection {
    /// An enum that only gained variants at its end.
    AdditiveEnumVariant,
}

/// How one type moves from the previous version to the current one.
#[derive(Clone, Debug, PartialEq, Eq)]
pub enum Projection {
    Identity { name: Name },
    Standard { name: Name, kind: StandardProjection },
    Annotated { name: Name, annotation: UpgradeAnnotation },
    Renamed { current: Name, previous: Name },
    Added { name: Name },
    Dropped { name: Name },
    Untranslatable { name: Name },
}

pub enum ProjectionModel {
    Identity(Seq<char>),
    Standard(Seq<char>, StandardProjection),
    Annotated(Seq<char>, AnnotationModel),
    Renamed(Seq<char>, Seq<char>),
    Added(Seq<char>),
    Dropped(Seq<char>),
    Untranslatable(Seq<char>),
}

impl Projection {
    pub open spec fn model(&self) -> ProjectionModel {
        match self {
            Projection::Identity { name } => ProjectionModel::Identity(name.text()),
            Projection::Standard { name, kind } => ProjectionModel::Standard(name.text(), *kind),
            Projection::Annotated { name, annotation } => ProjectionModel::Annotated(
                name.text(),
                annotation.model(),
            ),
            Projection::Renamed { current, previous } => ProjectionModel::Renamed(
                current.text(),
                previous.text(),
            ),
            Projection::Added { name } => ProjectionModel::Added(name.text()),
            Projection::Dropped { name } => ProjectionModel::Dropped(name.text()),
            Projection::Untranslatable { name } => ProjectionModel::Untranslatable(name.text()),
        }
    }
}

pub open spec fn projection_models(ps: Seq<Projection>) -> Seq<ProjectionModel> {
    Seq::new(ps.len(), |i: int| ps[i].model())
}

/// The projections of an upgrade, current types first, then the
/// previous version's removed types.
#[derive(Clone, Debug, PartialEq, Eq)]
pub struct UpgradePlan {
    projections: Vec<Projection>,
}

impl UpgradePlan {
    pub closed spec fn projection_list(&self) -> Seq<ProjectionModel> {
        projection_models(self.projections@)
    }

    pub fn new(projections: Vec<Projection>) -> (r: Self)
        ensures
            r.projection_list() == projection_models(projections@),
    {
        UpgradePlan { projections }
    }

    pub fn projections(&self) -> (r: &[Projection])
        ensures
            projection_models(r@) == self.projection_list(),
    {
        self.projections.as_slice()
    }
}

} // verus!
