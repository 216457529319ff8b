//! Composition: the set-up of a merge and the merge itself.

use crate::ast::DirectiveDefinition;
use crate::enum_usage::EnumTypeUsage;
use crate::merger::{
    places, with_subgraphs, CompositionOptions, JoinSpecDefinition, LinkSpecDefinition, MergeResult,
    Known, MergedDirectiveInfo, Merger,
};
use crate::override_pass::declared_fields;
use crate::report::{CompositionError, CompositionHint, ErrorReporter, FederationError, Report};
use crate::schema::{targets, FederationSchema, FieldPlace, TypeDefinition};
use crate::shallow::{
    definition_positions, definition_shapes, extends_with_bare, report_shallow_types,
    shallow_definitions, shallow_types,
};
use crate::subgraph::{
    elements_with_from_context, elements_with_override, get_fields_with_from_context_directive,
    get_fields_with_override_directive, Identity, Subgraph,
};
use crate::text::texts;
use crate::version::{
    get_latest_federation_version_used, latest_of, report_upgrades, versions_used, Version,
};
use vstd::hash_map::StringHashMap;
use vstd::hash_set::StringHashSet;
use vstd::prelude::*;
use vstd::string::*;

verus! {

/// The versions of the specifications that composition knows.
#[derive(Debug)]
pub struct KnownSpecs {
    /// The latest version of the federation specification.
    pub latest_federation_version: Version,
    /// The join specification for each federation version.
    pub join_specs: Vec<(Version, JoinSpecDefinition)>,
    /// The link specification for each federation version.
    pub link_specs: Vec<(Version, LinkSpecDefinition)>,
}

/// The specification that is listed first for the version.
pub open spec fn spec_for<A>(specs: Seq<(Version, A)>, version: Version) -> Option<A>
    decreases specs.len(),
{
    if specs.len() == 0 {
        None
    } else if specs[0].0 == version {
        Some(specs[0].1)
    } else {
        spec_for(specs.skip(1), version)
    }
}

/// Finds the specification for a version.
fn find_spec<A: Copy>(specs: &Vec<(Version, A)>, version: Version) -> (found: Option<A>)
    ensures
        found == spec_for(specs@, version),
{
    let mut i: usize = 0;
    assert(specs@.skip(0) =~= specs@);
    while i < specs.len()
        invariant
            i <= specs.len(),
            spec_for(specs@, version) == spec_for(specs@.skip(i as int), version),
        decreases specs.len() - i,
    {
        assert(specs@.skip(i as int).skip(1) =~= specs@.skip(i + 1));
        if specs[i].0 == version {
            return Some(specs[i].1);
        }
        i += 1;
    }
    None
}

/// What a specification adds to a schema.
#[derive(Debug, Default)]
pub struct SpecElements {
    pub types: Vec<TypeDefinition>,
    pub directive_definitions: Vec<DirectiveDefinition>,
}

/// What each step of the preparation of the supergraph came to.
#[derive(Debug)]
pub struct Preparation {
    /// What the link specification adds.
    pub link_spec: Result<SpecElements, FederationError>,
    /// What the join specification adds.
    pub join_spec: Result<SpecElements, FederationError>,
    /// The federation directives that are merged.
    pub core_directives: Result<Vec<MergedDirectiveInfo>, FederationError>,
    /// What the specifications of these directives add.
    pub directive_specs: Result<SpecElements, FederationError>,
    /// The name of each subgraph in the join specification.
    pub graph_names: Result<Vec<(String, String)>, FederationError>,
}

impl Preparation {
    /// The message of the first step that failed.
    pub open spec fn failure(self) -> Option<Seq<char>> {
        if self.link_spec is Err {
            Some(self.link_spec->Err_0.message@)
        } else if self.join_spec is Err {
            Some(self.join_spec->Err_0.message@)
        } else if self.core_directives is Err {
            Some(self.core_directives->Err_0.message@)
        } else if self.directive_specs is Err {
            Some(self.directive_specs->Err_0.message@)
        } else if self.graph_names is Err {
            Some(self.graph_names->Err_0.message@)
        } else {
            None
        }
    }

    /// The types that the steps before the first failure add.
    pub open spec fn types(self) -> Seq<TypeDefinition> {
        if self.link_spec is Err {
            Seq::empty()
        } else if self.join_spec is Err {
            self.link_spec->Ok_0.types@
        } else if self.core_directives is Err || self.directive_specs is Err {
            self.link_spec->Ok_0.types@ + self.join_spec->Ok_0.types@
        } else {
            self.link_spec->Ok_0.types@ + self.join_spec->Ok_0.types@
                + self.directive_specs->Ok_0.types@
        }
    }

    /// The directive definitions that the steps before the first failure add.
    pub open spec fn directive_definitions(self) -> Seq<DirectiveDefinition> {
        if self.link_spec is Err {
            Seq::empty()
        } else if self.join_spec is Err {
            self.link_spec->Ok_0.directive_definitions@
        } else if self.core_directives is Err || self.directive_specs is Err {
            self.link_spec->Ok_0.directive_definitions@
                + self.join_spec->Ok_0.directive_definitions@
        } else {
            self.link_spec->Ok_0.directive_definitions@
                + self.join_spec->Ok_0.directive_definitions@
                + self.directive_specs->Ok_0.directive_definitions@
        }
    }
}

/// The directives by their names; of several with the same name, the last one.
pub open spec fn infos_by_name(infos: Seq<MergedDirectiveInfo>) -> Map<
    Seq<char>,
    MergedDirectiveInfo,
>
    decreases infos.len(),
{
    if infos.len() == 0 {
        Map::empty()
    } else {
        infos_by_name(infos.drop_last()).insert(infos.last().definition.name@, infos.last())
    }
}

/// The second texts of some pairs by the first ones; of several with the same first text, the last
/// one.
pub open spec fn texts_by_name(pairs: Seq<(String, String)>) -> Map<Seq<char>, Seq<char>>
    decreases pairs.len(),
{
    if pairs.len() == 0 {
        Map::empty()
    } else {
        texts_by_name(pairs.drop_last()).insert(pairs.last().0@, pairs.last().1@)
    }
}

/// The characters of each string of a map.
pub open spec fn map_texts(map: Map<Seq<char>, String>) -> Map<Seq<char>, Seq<char>> {
    map.map_values(|s: String| s@)
}

/// The feature URL of each element that a subgraph imports; of several subgraphs with the same
/// name, the last one.
pub open spec fn imports_by_name(subgraphs: Seq<Subgraph>) -> Map<
    Seq<char>,
    Map<Seq<char>, Seq<char>>,
>
    decreases subgraphs.len(),
{
    if subgraphs.len() == 0 {
        Map::empty()
    } else {
        imports_by_name(subgraphs.drop_last()).insert(
            subgraphs.last().name@,
            texts_by_name(subgraphs.last().imports@),
        )
    }
}

/// The characters of each string of a map of maps.
pub open spec fn nested_texts(map: Map<Seq<char>, StringHashMap<String>>) -> Map<
    Seq<char>,
    Map<Seq<char>, Seq<char>>,
> {
    map.map_values(|m: StringHashMap<String>| map_texts(m@))
}

/// Puts pairs of texts into a map.
fn collect_texts(pairs: &Vec<(String, String)>) -> (map: StringHashMap<String>)
    ensures
        map_texts(map@) == texts_by_name(pairs@),
{
    let mut map: StringHashMap<String> = StringHashMap::new();
    let mut i: usize = 0;
    assert(pairs@.take(0) =~= Seq::<(String, String)>::empty());
    assert(map_texts(map@) =~= Map::<Seq<char>, Seq<char>>::empty());
    while i < pairs.len()
        invariant
            i <= pairs.len(),
            map_texts(map@) == texts_by_name(pairs@.take(i as int)),
        decreases pairs.len() - i,
    {
        assert(pairs@.take(i + 1).drop_last() =~= pairs@.take(i as int));
        let ghost before = map_texts(map@);
        map.insert(pairs[i].0.clone(), pairs[i].1.clone());
        assert(map_texts(map@) =~= before.insert(pairs@[i as int].0@, pairs@[i as int].1@));
        i += 1;
    }
    assert(pairs@.take(pairs.len() as int) =~= pairs@);
    map
}

/// Puts the imports of the subgraphs into a map.
fn collect_imports(subgraphs: &Vec<Subgraph>) -> (map: StringHashMap<StringHashMap<String>>)
    ensures
        nested_texts(map@) == imports_by_name(subgraphs@),
{
    let mut map: StringHashMap<StringHashMap<String>> = StringHashMap::new();
    let mut i: usize = 0;
    assert(subgraphs@.take(0) =~= Seq::<Subgraph>::empty());
    assert(nested_texts(map@) =~= Map::<Seq<char>, Map<Seq<char>, Seq<char>>>::empty());
    while i < subgraphs.len()
        invariant
            i <= subgraphs.len(),
            nested_texts(map@) == imports_by_name(subgraphs@.take(i as int)),
        decreases subgraphs.len() - i,
    {
        assert(subgraphs@.take(i + 1).drop_last() =~= subgraphs@.take(i as int));
        let ghost before = nested_texts(map@);
        let imports = collect_texts(&subgraphs[i].imports);
        map.insert(subgraphs[i].name.clone(), imports);
        assert(nested_texts(map@) =~= before.insert(
            subgraphs@[i as int].name@,
            map_texts(imports@),
        ));
        i += 1;
    }
    assert(subgraphs@.take(subgraphs.len() as int) =~= subgraphs@);
    map
}

/// The message about a join specification that is missing.
pub open spec fn no_join_spec(version: Version) -> Seq<char> {
    "No join spec version found for federation version "@ + version.notation()
}

/// The message about a link specification that is missing.
pub open spec fn no_link_spec(version: Version) -> Seq<char> {
    "No link spec version found for federation version "@ + version.notation()
}

/// The names of some subgraphs.
pub open spec fn subgraph_names_of(subgraphs: Seq<Subgraph>) -> Seq<Seq<char>> {
    subgraphs.map_values(|s: Subgraph| s.name@)
}

/// The latest federation version that some subgraphs use.
pub open spec fn federation_version(subgraphs: Seq<Subgraph>, specs: KnownSpecs) -> Version {
    latest_of(versions_used(subgraphs), specs.latest_federation_version)
}

/// The message of the failure to set up a merge.
pub open spec fn set_up_failure(
    subgraphs: Seq<Subgraph>,
    specs: KnownSpecs,
    preparation: Preparation,
) -> Option<Seq<char>> {
    let version = federation_version(subgraphs, specs);
    if spec_for(specs.join_specs@, version) is None {
        Some(no_join_spec(version))
    } else if spec_for(specs.link_specs@, version) is None {
        Some(no_link_spec(version))
    } else {
        preparation.failure()
    }
}

/// Whether the merger is set up for the subgraphs.
pub open spec fn is_set_up(
    merger: Merger,
    subgraphs: Vec<Subgraph>,
    options: CompositionOptions,
    specs: KnownSpecs,
    preparation: Preparation,
) -> bool {
    let version = federation_version(subgraphs@, specs);
    &&& merger.well_formed()
    &&& merger.subgraphs == subgraphs
    &&& merger.options == options
    &&& texts(merger.names@) == subgraph_names_of(subgraphs@)
    &&& merger.error_reporter@ == report_upgrades(Report::empty(), subgraphs@)
    &&& merger.latest_federation_version_used == version
    &&& spec_for(specs.join_specs@, version) == Some(merger.join_spec_definition)
    &&& spec_for(specs.link_specs@, version) == Some(merger.link_spec_definition)
    &&& targets(merger.fields_with_from_context@) == elements_with_from_context(subgraphs@)
    &&& targets(merger.fields_with_override@) == elements_with_override(subgraphs@)
    &&& nested_texts(merger.schema_to_import_to_feature_url@) == imports_by_name(subgraphs@)
    &&& places(merger.field_parent_lookup@) == with_subgraphs(
        Map::<Seq<char>, FieldPlace>::empty(),
        subgraphs@,
    )
    &&& exists|blank: FederationSchema| #[trigger]
        blank.is_blank() && merger.merged.types@ == blank.types@ + preparation.types()
            && merger.merged.directive_definitions@ == blank.directive_definitions@
            + preparation.directive_definitions() && merger.merged == (FederationSchema {
            types: merger.merged.types,
            directive_definitions: merger.merged.directive_definitions,
            ..blank
        })
    &&& merger.merged_federation_directive_in_supergraph_by_directive_name@ == infos_by_name(
        preparation.core_directives->Ok_0@,
    )
    &&& merger.merged_federation_directive_names@ == infos_by_name(
        preparation.core_directives->Ok_0@,
    ).dom()
    &&& map_texts(merger.subgraph_names_to_join_spec_name@) == texts_by_name(
        preparation.graph_names->Ok_0@,
    )
    &&& merger.enum_usages@ == Map::<Seq<char>, EnumTypeUsage>::empty()
    &&& merger.compose_directive_manager@.len() == 0
    &&& merger.inaccessible_directive_name_in_supergraph is None
    &&& merger.join_directive_identities@.len() == 1
    &&& merger.join_directive_identities@[0].is_apollo_spec("connect"@)
}

impl Merger {
    /// Sets up the merge of the subgraphs.
    ///
    /// Which specifications go with a federation version, and what preparing the supergraph with
    /// them comes to, is handed in.
    pub fn new(
        subgraphs: Vec<Subgraph>,
        options: CompositionOptions,
        specs: &KnownSpecs,
        preparation: Preparation,
    ) -> (result: Result<Merger, FederationError>)
        ensures
            match result {
                Ok(merger) => set_up_failure(subgraphs@, *specs, preparation) is None && is_set_up(
                    merger,
                    subgraphs,
                    options,
                    *specs,
                    preparation,
                ),
                Err(error) => set_up_failure(subgraphs@, *specs, preparation) == Some(
                    error.message@,
                ),
            },
    {
        let mut names: Vec<String> = Vec::new();
        let mut i: usize = 0;
        while i < subgraphs.len()
            invariant
                i <= subgraphs.len(),
                names.len() == i,
                forall|j: int| 0 <= j < i ==> (#[trigger] names@[j])@ == subgraphs@[j].name@,
            decreases subgraphs.len() - i,
        {
            names.push(subgraphs[i].name.clone());
            i += 1;
        }
        assert(texts(names@) =~= subgraph_names_of(subgraphs@));
        let mut error_reporter = ErrorReporter::new();
        let version = get_latest_federation_version_used(
            &subgraphs,
            specs.latest_federation_version,
            &mut error_reporter,
        );
        let join_spec_definition = match find_spec(&specs.join_specs, version) {
            Some(spec) => spec,
            None => {
                let text = version.to_notation();
                return Err(
                    FederationError::internal(
                        "No join spec version found for federation version ".to_owned().concat(
                            text.as_str(),
                        ),
                    ),
                );
            },
        };
        let link_spec_definition = match find_spec(&specs.link_specs, version) {
            Some(spec) => spec,
            None => {
                let text = version.to_notation();
                return Err(
                    FederationError::internal(
                        "No link spec version found for federation version ".to_owned().concat(
                            text.as_str(),
                        ),
                    ),
                );
            },
        };
        let fields_with_from_context = get_fields_with_from_context_directive(&subgraphs);
        let fields_with_override = get_fields_with_override_directive(&subgraphs);
        let schema_to_import_to_feature_url = collect_imports(&subgraphs);
        let merged = FederationSchema::new();
        let mut join_directive_identities: Vec<Identity> = Vec::new();
        join_directive_identities.push(Identity::connect_identity());
        let mut merger = Merger {
            subgraphs,
            options,
            compose_directive_manager: Vec::new(),
            names,
            error_reporter,
            merged,
            subgraph_names_to_join_spec_name: StringHashMap::new(),
            merged_federation_directive_names: StringHashSet::new(),
            merged_federation_directive_in_supergraph_by_directive_name: StringHashMap::new(),
            enum_usages: StringHashMap::new(),
            fields_with_from_context,
            fields_with_override,
            inaccessible_directive_name_in_supergraph: None,
            schema_to_import_to_feature_url,
            link_spec_definition,
            join_directive_identities,
            join_spec_definition,
            latest_federation_version_used: version,
            field_parent_lookup: StringHashMap::new(),
        };
        assert(places(merger.field_parent_lookup@) =~= Map::<Seq<char>, FieldPlace>::empty());
        merger.build_field_parent_lookup();
        merger.prepare_supergraph(preparation)?;
        proof {
            let infos = infos_by_name(preparation.core_directives->Ok_0@);
            assert(merged.is_blank());
            assert(merger.merged_federation_directive_in_supergraph_by_directive_name@ =~= infos);
            assert(merger.merged_federation_directive_names@ =~= infos.dom());
        }
        Ok(merger)
    }

    /// Adds what the steps of the preparation came to, one after the other up to the first
    /// failure.
    pub fn prepare_supergraph(&mut self, preparation: Preparation) -> (result: Result<
        (),
        FederationError,
    >)
        ensures
            match result {
                Ok(_) => {
                    let infos = infos_by_name(preparation.core_directives->Ok_0@);
                    let before = *old(self);
                    let after = *final(self);
                    &&& preparation.failure() is None
                    &&& after.merged_federation_directive_in_supergraph_by_directive_name@
                        == before.merged_federation_directive_in_supergraph_by_directive_name@.union_prefer_right(
                    infos)
                    &&& after.merged_federation_directive_names@
                        == before.merged_federation_directive_names@.union(infos.dom())
                    &&& map_texts(after.subgraph_names_to_join_spec_name@) == texts_by_name(
                        preparation.graph_names->Ok_0@,
                    )
                },
                Err(error) => preparation.failure() == Some(error.message@),
            },
            final(self).merged.types@ == old(self).merged.types@ + preparation.types(),
            final(self).merged.directive_definitions@ == old(self).merged.directive_definitions@
                + preparation.directive_definitions(),
            final(self).merged == (FederationSchema {
                types: final(self).merged.types,
                directive_definitions: final(self).merged.directive_definitions,
                ..old(self).merged
            }),
            *final(self) == (Merger {
                merged: final(self).merged,
                merged_federation_directive_in_supergraph_by_directive_name: final(
                    self).merged_federation_directive_in_supergraph_by_directive_name,
                merged_federation_directive_names: final(self).merged_federation_directive_names,
                subgraph_names_to_join_spec_name: final(self).subgraph_names_to_join_spec_name,
                ..*old(self)
            }),
    {
        let Preparation {
            link_spec,
            join_spec,
            core_directives,
            directive_specs,
            graph_names,
        } = preparation;
        self.add_elements(link_spec?);
        self.add_elements(join_spec?);
        let infos = core_directives?;
        self.add_elements(directive_specs?);
        self.register_directives(infos);
        let graph_names = graph_names?;
        self.subgraph_names_to_join_spec_name = collect_texts(&graph_names);
        Ok(())
    }

    /// Adds what a specification adds to the supergraph.
    fn add_elements(&mut self, elements: SpecElements)
        ensures
            final(self).merged.types@ == old(self).merged.types@ + elements.types@,
            final(self).merged.directive_definitions@ == old(self).merged.directive_definitions@
                + elements.directive_definitions@,
            final(self).merged == (FederationSchema {
                types: final(self).merged.types,
                directive_definitions: final(self).merged.directive_definitions,
                ..old(self).merged
            }),
            *final(self) == (Merger { merged: final(self).merged, ..*old(self) }),
    {
        let SpecElements { mut types, mut directive_definitions } = elements;
        self.merged.types.append(&mut types);
        self.merged.directive_definitions.append(&mut directive_definitions);
    }

    /// Registers the federation directives that are merged.
    fn register_directives(&mut self, infos: Vec<MergedDirectiveInfo>)
        ensures
            ({
                let added = infos_by_name(infos@);
                let before = *old(self);
                let after = *final(self);
                &&& after.merged_federation_directive_in_supergraph_by_directive_name@
                    == before.merged_federation_directive_in_supergraph_by_directive_name@.union_prefer_right(
                added)
                &&& after.merged_federation_directive_names@
                    == before.merged_federation_directive_names@.union(added.dom())
            }),
            *final(self) == (Merger {
                merged_federation_directive_in_supergraph_by_directive_name: final(
                    self).merged_federation_directive_in_supergraph_by_directive_name,
                merged_federation_directive_names: final(self).merged_federation_directive_names,
                ..*old(self)
            }),
    {
        let ghost all = infos@;
        let ghost before = self.merged_federation_directive_in_supergraph_by_directive_name@;
        let ghost names = self.merged_federation_directive_names@;
        let mut rest = infos;
        let ghost mut done: int = 0;
        assert(all.take(0) =~= Seq::<MergedDirectiveInfo>::empty());
        while rest.len() > 0
            invariant
                0 <= done,
                done + rest.len() == all.len(),
                rest@ == all.skip(done),
                self.merged_federation_directive_in_supergraph_by_directive_name@
                    == before.union_prefer_right(infos_by_name(all.take(done))),
                self.merged_federation_directive_names@ == names.union(
                    infos_by_name(all.take(done)).dom(),
                ),
                *self == (Merger {
                    merged_federation_directive_in_supergraph_by_directive_name:
                        self.merged_federation_directive_in_supergraph_by_directive_name,
                    merged_federation_directive_names: self.merged_federation_directive_names,
                    ..*old(self)
                }),
            decreases rest.len(),
        {
            let info = rest.remove(0);
            let ghost known = infos_by_name(all.take(done));
            assert(info == all[done]);
            assert(all.take(done + 1).drop_last() =~= all.take(done));
            let name = info.definition.name.clone();
            self.merged_federation_directive_names.insert(name.clone());
            self.merged_federation_directive_in_supergraph_by_directive_name.insert(name, info);
            assert(self.merged_federation_directive_in_supergraph_by_directive_name@
                =~= before.union_prefer_right(known.insert(name@, info)));
            assert(self.merged_federation_directive_names@ =~= names.union(
                known.insert(name@, info).dom(),
            ));
            assert(rest@ =~= all.skip(done + 1));
            proof {
                done = done + 1;
            }
        }
        assert(all.take(all.len() as int) =~= all);
    }
}

/// The message about a subgraph that has no name in the join specification.
pub open spec fn no_join_name(subgraph: Seq<char>) -> Seq<char> {
    "Could not find join spec name for subgraph '"@ + subgraph + "'"@
}

impl Merger {
    /// The name of a subgraph in the join specification.
    pub fn join_spec_name(&self, subgraph_index: usize) -> (result: Result<
        &String,
        FederationError,
    >)
        requires
            subgraph_index < self.names.len(),
        ensures
            ({
                let subgraph = self.names@[subgraph_index as int]@;
                let known = self.subgraph_names_to_join_spec_name@;
                match result {
                    Ok(name) => known.contains_key(subgraph) && *name == known[subgraph],
                    Err(error) => !known.contains_key(subgraph) && error.message@ == no_join_name(
                        subgraph,
                    ),
                }
            }),
    {
        let subgraph = &self.names[subgraph_index];
        match self.subgraph_names_to_join_spec_name.get(subgraph.as_str()) {
            Some(name) => Ok(name),
            None => Err(
                FederationError::internal(
                    "Could not find join spec name for subgraph '".to_owned().concat(
                        subgraph.as_str(),
                    ).concat("'"),
                ),
            ),
        }
    }

    /// The supergraph as far as it is merged.
    pub fn schema(&self) -> (schema: &FederationSchema)
        ensures
            *schema == self.merged,
    {
        &self.merged
    }

    /// What has been reported.
    pub fn error_reporter(&self) -> (error_reporter: &ErrorReporter)
        ensures
            *error_reporter == self.error_reporter,
    {
        &self.error_reporter
    }

    /// Access to what has been reported.
    pub fn error_reporter_mut(&mut self) -> (error_reporter: &mut ErrorReporter)
        ensures
            *error_reporter == old(self).error_reporter,
            *final(self) == (Merger { error_reporter: *final(error_reporter), ..*old(self) }),
    {
        &mut self.error_reporter
    }

    /// The names of the subgraphs.
    pub fn subgraph_names(&self) -> (names: &Vec<String>)
        ensures
            *names == self.names,
    {
        &self.names
    }

    /// The uses of the enum types.
    pub fn enum_usages(&self) -> (usages: &StringHashMap<EnumTypeUsage>)
        ensures
            *usages == self.enum_usages,
    {
        &self.enum_usages
    }

    /// Access to the uses of the enum types.
    pub fn enum_usages_mut(&mut self) -> (usages: &mut StringHashMap<EnumTypeUsage>)
        ensures
            *usages == old(self).enum_usages,
            *final(self) == (Merger { enum_usages: *final(usages), ..*old(self) }),
    {
        &mut self.enum_usages
    }

    /// Whether an error was reported.
    pub fn has_errors(&self) -> (some: bool)
        ensures
            some == (self.error_reporter@.errors.len() > 0),
    {
        self.error_reporter.has_errors()
    }

    /// Whether a hint was reported.
    pub fn has_hints(&self) -> (some: bool)
        ensures
            some == (self.error_reporter@.hints.len() > 0),
    {
        self.error_reporter.has_hints()
    }

    /// The use of an enum type.
    pub fn get_enum_usage(&self, enum_name: &str) -> (usage: Option<&EnumTypeUsage>)
        ensures
            match usage {
                Some(u) => self.enum_usages@.contains_key(enum_name@)
                    && *u == self.enum_usages@[enum_name@],
                None => !self.enum_usages@.contains_key(enum_name@),
            },
    {
        self.enum_usages.get(enum_name)
    }

    /// The report after the subgraphs are merged into the schema: about their types, then about
    /// the overrides of their fields.
    pub open spec fn merge_report(&self, schema: FederationSchema) -> Report {
        Known { types: schema.types@, ..self.known() }.overrides_reported(
            targets(self.fields_with_override@),
            declared_fields(self.subgraphs@),
            report_shallow_types(
                self.error_reporter@,
                definition_positions(self.merged.types@),
                self.subgraphs@,
            ),
        )
    }

    /// Whether the schema is the supergraph after the subgraphs are merged: with the types of the
    /// subgraphs, without what is in them, and with their directive definitions.
    pub open spec fn is_supergraph(&self, schema: FederationSchema) -> bool {
        &&& definition_positions(schema.types@) == shallow_types(
            definition_positions(self.merged.types@),
            self.subgraphs@,
        ).types
        &&& extends_with_bare(self.merged.types@, schema.types@)
        &&& definition_shapes(schema.directive_definitions@) == shallow_definitions(
            texts(self.merged.built_in_directives@),
            definition_shapes(self.merged.directive_definitions@),
            self.compose_directive_manager@,
            self.subgraphs@,
        )
        &&& schema == (FederationSchema {
            types: schema.types,
            directive_definitions: schema.directive_definitions,
            ..self.merged
        })
    }

    /// Merges the subgraphs: adds their types and directive definitions to the supergraph, and
    /// validates the overrides of their fields. There is a supergraph where no error is reported.
    pub fn merge(self) -> (result: MergeResult)
        requires
            self.well_formed(),
        ensures
            is_result_of(result, self),
    {
        let mut merger = self;
        merger.add_types_shallow();
        let _ = merger.add_directives_shallow();
        assert(merger.known() == (Known { types: merger.merged.types@, ..self.known() }));
        merger.validate_overrides();
        assert(self.is_supergraph(merger.merged));
        let Merger { error_reporter, merged, .. } = merger;
        let (errors, hints) = error_reporter.into_errors_and_hints();
        if errors.len() > 0 {
            MergeResult { supergraph: None, errors, hints }
        } else {
            MergeResult { supergraph: Some(merged), errors, hints }
        }
    }
}

/// Whether the result is that of the merge.
pub open spec fn is_result_of(result: MergeResult, merger: Merger) -> bool {
    exists|schema: FederationSchema| #[trigger]
        merger.is_supergraph(schema) && is_reported(result, merger.merge_report(schema), schema)
}

/// Whether the result is the report, and the schema where the report has no error.
pub open spec fn is_reported(
    result: MergeResult,
    report: Report,
    schema: FederationSchema,
) -> bool {
    &&& result.errors@.map_values(|e: CompositionError| e@) == report.errors
    &&& result.hints@.map_values(|h: CompositionHint| h@) == report.hints
    &&& result.supergraph == if report.errors.len() == 0 {
        Some(schema)
    } else {
        None
    }
}

/// Sets up the merge of the subgraphs and merges them.
pub fn merge_subgraphs(
    subgraphs: Vec<Subgraph>,
    options: CompositionOptions,
    specs: &KnownSpecs,
    preparation: Preparation,
) -> (result: Result<MergeResult, FederationError>)
    ensures
        match result {
            Ok(merged) => set_up_failure(subgraphs@, *specs, preparation) is None && exists|
                merger: Merger,
            | #[trigger]
                is_set_up(merger, subgraphs, options, *specs, preparation) && is_result_of(
                    merged,
                    merger,
                ),
            Err(error) => set_up_failure(subgraphs@, *specs, preparation) == Some(error.message@),
        },
{
    let merger = Merger::new(subgraphs, options, specs, preparation)?;
    Ok(merger.merge())
}

} // verus!
