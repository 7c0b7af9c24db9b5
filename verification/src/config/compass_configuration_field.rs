use vstd::prelude::*;

verus! {

/// The sections and keys of a Compass configuration file.
#[derive(Clone, Copy, Debug, PartialEq, Eq, Structural)]
pub enum CompassConfigurationField {
    Graph,
    Constraint,
    Termination,
    Label,
    State,
    Traversal,
    Access,
    Cost,
    Algorithm,
    Plugins,
    MapModel,
    InputPlugins,
    OutputPlugins,
    Parallelism,
    QueryTimeoutMs,
    IncludeTree,
    ChargeDepleting,
    ChargeSustaining,
    ResponsePersistencePolicy,
    ResponseOutputPolicy,
}

/// The key under which a field appears in a configuration file.
pub open spec fn field_key(f: CompassConfigurationField) -> Seq<char> {
    match f {
        CompassConfigurationField::Graph => "graph"@,
        CompassConfigurationField::Traversal => "traversal"@,
        CompassConfigurationField::Access => "access"@,
        CompassConfigurationField::Cost => "cost"@,
        CompassConfigurationField::State => "state"@,
        CompassConfigurationField::Constraint => "constraint"@,
        CompassConfigurationField::Termination => "termination"@,
        CompassConfigurationField::Algorithm => "algorithm"@,
        CompassConfigurationField::Parallelism => "parallelism"@,
        CompassConfigurationField::QueryTimeoutMs => "query_timeout_ms"@,
        CompassConfigurationField::IncludeTree => "include_tree"@,
        CompassConfigurationField::Plugins => "plugin"@,
        CompassConfigurationField::MapModel => "mapping"@,
        CompassConfigurationField::InputPlugins => "input_plugins"@,
        CompassConfigurationField::OutputPlugins => "output_plugins"@,
        CompassConfigurationField::ChargeDepleting => "charge_depleting"@,
        CompassConfigurationField::ChargeSustaining => "charge_sustaining"@,
        CompassConfigurationField::ResponsePersistencePolicy => "response_persistence_policy"@,
        CompassConfigurationField::ResponseOutputPolicy => "response_output_policy"@,
        CompassConfigurationField::Label => "label"@,
    }
}

impl CompassConfigurationField {
    /// The key under which this field appears in a configuration file.
    pub fn to_str(&self) -> (s: &'static str)
        ensures
            s@ == field_key(*self),
    {
        match self {
            CompassConfigurationField::Graph => "graph",
            CompassConfigurationField::Traversal => "traversal",
            CompassConfigurationField::Access => "access",
            CompassConfigurationField::Cost => "cost",
            CompassConfigurationField::State => "state",
            CompassConfigurationField::Constraint => "constraint",
            CompassConfigurationField::Termination => "termination",
            CompassConfigurationField::Algorithm => "algorithm",
            CompassConfigurationField::Parallelism => "parallelism",
            CompassConfigurationField::QueryTimeoutMs => "query_timeout_ms",
            CompassConfigurationField::IncludeTree => "include_tree",
            CompassConfigurationField::Plugins => "plugin",
            CompassConfigurationField::MapModel => "mapping",
            CompassConfigurationField::InputPlugins => "input_plugins",
            CompassConfigurationField::OutputPlugins => "output_plugins",
            CompassConfigurationField::ChargeDepleting => "charge_depleting",
            CompassConfigurationField::ChargeSustaining => "charge_sustaining",
            CompassConfigurationField::ResponsePersistencePolicy => "response_persistence_policy",
            CompassConfigurationField::ResponseOutputPolicy => "response_output_policy",
            CompassConfigurationField::Label => "label",
        }
    }
}

/// Each field has a key of its own: two different fields never share a key.
pub proof fn law_field_keys_distinct(a: CompassConfigurationField, b: CompassConfigurationField)
    requires
        a != b,
    ensures
        field_key(a) != field_key(b),
{
    reveal_strlit("graph");
    reveal_strlit("traversal");
    reveal_strlit("access");
    reveal_strlit("cost");
    reveal_strlit("state");
    reveal_strlit("constraint");
    reveal_strlit("termination");
    reveal_strlit("algorithm");
    reveal_strlit("parallelism");
    reveal_strlit("query_timeout_ms");
    reveal_strlit("include_tree");
    reveal_strlit("plugin");
    reveal_strlit("mapping");
    reveal_strlit("input_plugins");
    reveal_strlit("output_plugins");
    reveal_strlit("charge_depleting");
    reveal_strlit("charge_sustaining");
    reveal_strlit("response_persistence_policy");
    reveal_strlit("response_output_policy");
    reveal_strlit("label");
    let ka = field_key(a);
    let kb = field_key(b);
    if ka.len() == kb.len() {
        // the fields whose keys have equal lengths differ in the first letter
        assert(ka[0] != kb[0]);
    }
}

} // verus!
