//! What `@override` means for each subgraph that has a field.

use crate::index_map::{
    distinct_keys, has_key, item_of, key_position, lemma_put, put, IndexedMap,
};
use crate::report::optional_text;
use vstd::prelude::*;

verus! {

/// The properties of a field in one subgraph.
#[derive(Debug)]
pub struct FieldMergeContextProperties {
    /// The field is overridden but still used.
    pub used_overridden: bool,
    /// The field is overridden and not used.
    pub unused_overridden: bool,
    /// The field overrides a subgraph that does not exist.
    pub override_with_unknown_target: bool,
    /// The label under which the field is being migrated.
    pub override_label: Option<String>,
}

/// What the properties of a field are.
pub struct FieldProperties {
    pub used_overridden: bool,
    pub unused_overridden: bool,
    pub override_with_unknown_target: bool,
    pub override_label: Option<Seq<char>>,
}

impl FieldProperties {
    /// The properties of a field that `@override` does not concern.
    pub open spec fn none() -> FieldProperties {
        FieldProperties {
            used_overridden: false,
            unused_overridden: false,
            override_with_unknown_target: false,
            override_label: None,
        }
    }
}

impl View for FieldMergeContextProperties {
    type V = FieldProperties;

    open spec fn view(&self) -> FieldProperties {
        FieldProperties {
            used_overridden: self.used_overridden,
            unused_overridden: self.unused_overridden,
            override_with_unknown_target: self.override_with_unknown_target,
            override_label: optional_text(self.override_label),
        }
    }
}

impl Default for FieldMergeContextProperties {
    fn default() -> (properties: Self)
        ensures
            properties@ == FieldProperties::none(),
    {
        FieldMergeContextProperties {
            used_overridden: false,
            unused_overridden: false,
            override_with_unknown_target: false,
            override_label: None,
        }
    }
}

/// Tracks what `@override` means for a field, per subgraph.
pub struct FieldMergeContext {
    pub properties: IndexedMap<FieldMergeContextProperties>,
}

/// What each entry of a context is.
pub open spec fn property_entries(entries: Seq<(usize, FieldMergeContextProperties)>) -> Seq<
    (usize, FieldProperties),
> {
    entries.map_values(|e: (usize, FieldMergeContextProperties)| (e.0, e.1@))
}

/// The properties of the subgraph, those of an unconcerned one where it has no entry.
pub open spec fn properties_of(context: Seq<(usize, FieldProperties)>, subgraph: usize) ->
    FieldProperties {
    match item_of(context, subgraph) {
        Some(properties) => properties,
        None => FieldProperties::none(),
    }
}

/// The context after the subgraph is marked as overridden but used.
pub open spec fn with_used_overridden(
    context: Seq<(usize, FieldProperties)>,
    subgraph: usize,
) -> Seq<(usize, FieldProperties)> {
    put(
        context,
        subgraph,
        FieldProperties { used_overridden: true, ..properties_of(context, subgraph) },
    )
}

/// The context after the subgraph is marked as overridden and unused.
pub open spec fn with_unused_overridden(
    context: Seq<(usize, FieldProperties)>,
    subgraph: usize,
) -> Seq<(usize, FieldProperties)> {
    put(
        context,
        subgraph,
        FieldProperties { unused_overridden: true, ..properties_of(context, subgraph) },
    )
}

/// The context after the subgraph is marked as overriding an unknown one.
pub open spec fn with_unknown_target(
    context: Seq<(usize, FieldProperties)>,
    subgraph: usize,
) -> Seq<(usize, FieldProperties)> {
    put(
        context,
        subgraph,
        FieldProperties { override_with_unknown_target: true, ..properties_of(context, subgraph) },
    )
}

/// The context after the subgraph gets a label.
pub open spec fn with_label(
    context: Seq<(usize, FieldProperties)>,
    subgraph: usize,
    label: Seq<char>,
) -> Seq<(usize, FieldProperties)> {
    put(
        context,
        subgraph,
        FieldProperties { override_label: Some(label), ..properties_of(context, subgraph) },
    )
}

/// Where an entry stands does not depend on how its item is looked at.
proof fn lemma_entries(entries: Seq<(usize, FieldMergeContextProperties)>, key: usize)
    requires
        distinct_keys(entries),
    ensures
        distinct_keys(property_entries(entries)),
        has_key(property_entries(entries), key) == has_key(entries, key),
        match item_of(entries, key) {
            Some(item) => item_of(property_entries(entries), key) == Some(item@),
            None => item_of(property_entries(entries), key) is None,
        },
        forall|item: FieldMergeContextProperties| #[trigger]
            property_entries(put(entries, key, item)) == put(
                property_entries(entries),
                key,
                item@,
            ),
{
    let shown = property_entries(entries);
    assert forall|i: int| #![trigger shown[i]] #![trigger entries[i]] 0 <= i < entries.len()
        implies shown[i].0 == entries[i].0 by {}
    if has_key(entries, key) {
        let at = key_position(entries, key);
        assert(shown[at].0 == key);
        let there = key_position(shown, key);
        assert(shown[there].0 == key);
        assert(entries[there].0 == key);
    }
    if has_key(shown, key) {
        let at = key_position(shown, key);
        assert(entries[at].0 == key);
    }
    assert forall|item: FieldMergeContextProperties| #[trigger]
        property_entries(put(entries, key, item)) == put(shown, key, item@) by {
        assert(property_entries(put(entries, key, item)) =~= put(shown, key, item@));
    }
}

impl View for FieldMergeContext {
    type V = Seq<(usize, FieldProperties)>;

    open spec fn view(&self) -> Seq<(usize, FieldProperties)> {
        property_entries(self.properties@)
    }
}

impl FieldMergeContext {
    /// Whether no subgraph has two entries.
    pub open spec fn well_formed(&self) -> bool {
        self.properties.well_formed()
    }

    /// A context that says nothing.
    pub fn new() -> (context: Self)
        ensures
            context.well_formed(),
            context@ == Seq::<(usize, FieldProperties)>::empty(),
    {
        let context = FieldMergeContext { properties: IndexedMap::new() };
        assert(context@ =~= Seq::<(usize, FieldProperties)>::empty());
        context
    }

    /// The properties of a subgraph that has an entry.
    pub fn get_properties(&self, subgraph_idx: usize) -> (found: Option<
        &FieldMergeContextProperties,
    >)
        requires
            self.well_formed(),
        ensures
            match found {
                Some(properties) => item_of(self@, subgraph_idx) == Some(properties@),
                None => item_of(self@, subgraph_idx) is None,
            },
    {
        proof {
            self.properties.lemma_keys_are_distinct();
            lemma_entries(self.properties@, subgraph_idx);
        }
        self.properties.get(subgraph_idx)
    }

    /// Access to the properties of a subgraph, which gets an entry where it has none.
    pub fn get_properties_mut(&mut self, subgraph_idx: usize) -> (properties:
        &mut FieldMergeContextProperties)
        requires
            old(self).well_formed(),
        ensures
            (*properties)@ == properties_of(old(self)@, subgraph_idx),
            final(self).well_formed(),
            final(self)@ == put(old(self)@, subgraph_idx, (*final(properties))@),
    {
        proof {
            self.properties.lemma_keys_are_distinct();
            lemma_entries(self.properties@, subgraph_idx);
        }
        self.properties.entry_or_insert(subgraph_idx, FieldMergeContextProperties::default())
    }

    /// Marks the field of a subgraph as overridden but used.
    pub fn set_used_overridden(&mut self, subgraph_idx: usize)
        requires
            old(self).well_formed(),
        ensures
            final(self).well_formed(),
            final(self)@ == with_used_overridden(old(self)@, subgraph_idx),
    {
        let properties = self.get_properties_mut(subgraph_idx);
        properties.used_overridden = true;
    }

    /// Marks the field of a subgraph as overridden and unused.
    pub fn set_unused_overridden(&mut self, subgraph_idx: usize)
        requires
            old(self).well_formed(),
        ensures
            final(self).well_formed(),
            final(self)@ == with_unused_overridden(old(self)@, subgraph_idx),
    {
        let properties = self.get_properties_mut(subgraph_idx);
        properties.unused_overridden = true;
    }

    /// Marks the field of a subgraph as overriding a subgraph that does not exist.
    pub fn set_override_with_unknown_target(&mut self, subgraph_idx: usize)
        requires
            old(self).well_formed(),
        ensures
            final(self).well_formed(),
            final(self)@ == with_unknown_target(old(self)@, subgraph_idx),
    {
        let properties = self.get_properties_mut(subgraph_idx);
        properties.override_with_unknown_target = true;
    }

    /// Sets the label under which the field of a subgraph is migrated.
    pub fn set_override_label(&mut self, subgraph_idx: usize, label: String)
        requires
            old(self).well_formed(),
        ensures
            final(self).well_formed(),
            final(self)@ == with_label(old(self)@, subgraph_idx, label@),
    {
        let properties = self.get_properties_mut(subgraph_idx);
        properties.override_label = Some(label);
    }

    /// Whether the field of a subgraph is overridden but used.
    pub fn is_used_overridden(&self, subgraph_idx: usize) -> (used: bool)
        requires
            self.well_formed(),
        ensures
            used == properties_of(self@, subgraph_idx).used_overridden,
    {
        match self.get_properties(subgraph_idx) {
            Some(properties) => properties.used_overridden,
            None => false,
        }
    }

    /// Whether the field of a subgraph is overridden and unused.
    pub fn is_unused_overridden(&self, subgraph_idx: usize) -> (unused: bool)
        requires
            self.well_formed(),
        ensures
            unused == properties_of(self@, subgraph_idx).unused_overridden,
    {
        match self.get_properties(subgraph_idx) {
            Some(properties) => properties.unused_overridden,
            None => false,
        }
    }

    /// The label under which the field of a subgraph is migrated.
    pub fn override_label(&self, subgraph_idx: usize) -> (label: Option<&String>)
        requires
            self.well_formed(),
        ensures
            match label {
                Some(text) => properties_of(self@, subgraph_idx).override_label == Some(text@),
                None => properties_of(self@, subgraph_idx).override_label is None,
            },
    {
        match self.get_properties(subgraph_idx) {
            Some(properties) => properties.override_label.as_ref(),
            None => None,
        }
    }

    /// Whether the field of a subgraph overrides a subgraph that does not exist.
    pub fn has_override_with_unknown_target(&self, subgraph_idx: usize) -> (unknown: bool)
        requires
            self.well_formed(),
        ensures
            unknown == properties_of(self@, subgraph_idx).override_with_unknown_target,
    {
        match self.get_properties(subgraph_idx) {
            Some(properties) => properties.override_with_unknown_target,
            None => false,
        }
    }

    /// Whether `@override` concerns some subgraph.
    pub fn some(&self) -> (some: bool)
        ensures
            some == (self@.len() > 0),
    {
        !self.properties.is_empty()
    }
}

/// A mark shows for the subgraph that was marked, and leaves all other properties and all other
/// subgraphs as they were.
pub proof fn law_marks_are_kept(
    context: Seq<(usize, FieldProperties)>,
    subgraph: usize,
    other: usize,
    label: Seq<char>,
)
    requires
        distinct_keys(context),
        other != subgraph,
    ensures
        properties_of(with_used_overridden(context, subgraph), subgraph) == (FieldProperties {
            used_overridden: true,
            ..properties_of(context, subgraph)
        }),
        properties_of(with_unused_overridden(context, subgraph), subgraph) == (FieldProperties {
            unused_overridden: true,
            ..properties_of(context, subgraph)
        }),
        properties_of(with_unknown_target(context, subgraph), subgraph) == (FieldProperties {
            override_with_unknown_target: true,
            ..properties_of(context, subgraph)
        }),
        properties_of(with_label(context, subgraph, label), subgraph) == (FieldProperties {
            override_label: Some(label),
            ..properties_of(context, subgraph)
        }),
        properties_of(with_used_overridden(context, subgraph), other) == properties_of(
            context,
            other,
        ),
        properties_of(with_unused_overridden(context, subgraph), other) == properties_of(
            context,
            other,
        ),
        properties_of(with_unknown_target(context, subgraph), other) == properties_of(
            context,
            other,
        ),
        properties_of(with_label(context, subgraph, label), other) == properties_of(
            context,
            other,
        ),
{
    let before = properties_of(context, subgraph);
    lemma_put(context, subgraph, FieldProperties { used_overridden: true, ..before }, other);
    lemma_put(context, subgraph, FieldProperties { unused_overridden: true, ..before }, other);
    lemma_put(
        context,
        subgraph,
        FieldProperties { override_with_unknown_target: true, ..before },
        other,
    );
    lemma_put(
        context,
        subgraph,
        FieldProperties { override_label: Some(label), ..before },
        other,
    );
}

} // verus!
