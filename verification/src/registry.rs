//! Behavior registries: user-registered spawn behaviors for entities and
//! int-grid cells, keyed by (layer identifier, entity-or-cell identifier),
//! with a process-wide default when no exact match is registered.

use vstd::prelude::*;

verus! {

/// The behavior an entity registration resolves to: the most recent entry
/// matching both identifiers exactly, or the default when none does.
pub open spec fn spec_resolve_entity_entries<B>(
    entries: Seq<(String, String, B)>,
    default_behavior: B,
    layer_identifier: Seq<char>,
    entity_identifier: Seq<char>,
) -> B
    decreases entries.len(),
{
    if entries.len() == 0 {
        default_behavior
    } else if entries.last().0@ == layer_identifier && entries.last().1@ == entity_identifier {
        entries.last().2
    } else {
        spec_resolve_entity_entries(
            entries.drop_last(),
            default_behavior,
            layer_identifier,
            entity_identifier,
        )
    }
}

/// A registry of entity spawn behaviors keyed by (layer identifier, entity
/// identifier); a behavior registered for one layer never applies under
/// another layer identifier.
pub struct EntityRegistry<B> {
    pub default_behavior: B,
    pub entries: Vec<(String, String, B)>,
}

impl<B> EntityRegistry<B> {
    /// The behavior this registry resolves the pair to.
    pub open spec fn spec_resolve(
        self,
        layer_identifier: Seq<char>,
        entity_identifier: Seq<char>,
    ) -> B {
        spec_resolve_entity_entries(
            self.entries@,
            self.default_behavior,
            layer_identifier,
            entity_identifier,
        )
    }
}

impl<B: Copy> EntityRegistry<B> {
    /// An empty registry resolving everything to the default behavior.
    pub fn new(default_behavior: B) -> (r: Self)
        ensures
            r.default_behavior == default_behavior,
            r.entries@.len() == 0,
    {
        EntityRegistry { default_behavior, entries: Vec::new() }
    }

    /// Registers a behavior for the pair; a later registration of the same
    /// pair wins over an earlier one.
    pub fn register(
        &mut self,
        layer_identifier: String,
        entity_identifier: String,
        behavior: B,
    )
        ensures
            final(self).entries@ == old(self).entries@.push(
                (layer_identifier, entity_identifier, behavior),
            ),
            final(self).default_behavior == old(self).default_behavior,
    {
        self.entries.push((layer_identifier, entity_identifier, behavior));
    }

    /// Returns the behavior registered for the exact pair, or the default
    /// when none is registered; never fails.
    pub fn resolve(&self, layer_identifier: &String, entity_identifier: &String) -> (r: B)
        ensures
            r == self.spec_resolve(layer_identifier@, entity_identifier@),
    {
        let mut k: usize = self.entries.len();
        proof {
            assert(self.entries@.take(self.entries@.len() as int) =~= self.entries@);
        }
        while k > 0
            invariant
                0 <= k <= self.entries@.len(),
                self.spec_resolve(layer_identifier@, entity_identifier@)
                    == spec_resolve_entity_entries(
                    self.entries@.take(k as int),
                    self.default_behavior,
                    layer_identifier@,
                    entity_identifier@,
                ),
            decreases k,
        {
            k = k - 1;
            let entry = &self.entries[k];
            proof {
                assert(self.entries@.take(k + 1).drop_last() =~= self.entries@.take(k as int));
                assert(self.entries@.take(k + 1).last() == self.entries@[k as int]);
            }
            if entry.0 == *layer_identifier && entry.1 == *entity_identifier {
                return entry.2;
            }
        }
        self.default_behavior
    }
}

/// The behavior an int-grid cell registration resolves to: the most recent
/// entry matching the layer identifier and cell value exactly, or the
/// default when none does.
pub open spec fn spec_resolve_int_cell_entries<B>(
    entries: Seq<(String, i32, B)>,
    default_behavior: B,
    layer_identifier: Seq<char>,
    value: i32,
) -> B
    decreases entries.len(),
{
    if entries.len() == 0 {
        default_behavior
    } else if entries.last().0@ == layer_identifier && entries.last().1 == value {
        entries.last().2
    } else {
        spec_resolve_int_cell_entries(entries.drop_last(), default_behavior, layer_identifier, value)
    }
}

/// A registry of int-grid cell spawn behaviors keyed by (layer identifier,
/// cell value); a behavior registered for one layer never applies under
/// another layer identifier.
pub struct IntCellRegistry<B> {
    pub default_behavior: B,
    pub entries: Vec<(String, i32, B)>,
}

impl<B> IntCellRegistry<B> {
    /// The behavior this registry resolves the pair to.
    pub open spec fn spec_resolve(self, layer_identifier: Seq<char>, value: i32) -> B {
        spec_resolve_int_cell_entries(
            self.entries@,
            self.default_behavior,
            layer_identifier,
            value,
        )
    }
}

impl<B: Copy> IntCellRegistry<B> {
    /// An empty registry resolving everything to the default behavior.
    pub fn new(default_behavior: B) -> (r: Self)
        ensures
            r.default_behavior == default_behavior,
            r.entries@.len() == 0,
    {
        IntCellRegistry { default_behavior, entries: Vec::new() }
    }

    /// Registers a behavior for the pair; a later registration of the same
    /// pair wins over an earlier one.
    pub fn register(&mut self, layer_identifier: String, value: i32, behavior: B)
        ensures
            final(self).entries@ == old(self).entries@.push(
                (layer_identifier, value, behavior),
            ),
            final(self).default_behavior == old(self).default_behavior,
    {
        self.entries.push((layer_identifier, value, behavior));
    }

    /// Returns the behavior registered for the exact pair, or the default
    /// when none is registered; never fails.
    pub fn resolve(&self, layer_identifier: &String, value: i32) -> (r: B)
        ensures
            r == self.spec_resolve(layer_identifier@, value),
    {
        let mut k: usize = self.entries.len();
        proof {
            assert(self.entries@.take(self.entries@.len() as int) =~= self.entries@);
        }
        while k > 0
            invariant
                0 <= k <= self.entries@.len(),
                self.spec_resolve(layer_identifier@, value) == spec_resolve_int_cell_entries(
                    self.entries@.take(k as int),
                    self.default_behavior,
                    layer_identifier@,
                    value,
                ),
            decreases k,
        {
            k = k - 1;
            let entry = &self.entries[k];
            proof {
                assert(self.entries@.take(k + 1).drop_last() =~= self.entries@.take(k as int));
                assert(self.entries@.take(k + 1).last() == self.entries@[k as int]);
            }
            if entry.0 == *layer_identifier && entry.1 == value {
                return entry.2;
            }
        }
        self.default_behavior
    }
}

} // verus!
