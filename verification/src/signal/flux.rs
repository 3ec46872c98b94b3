//! Earthquake signals fed by the Flux entity stream.
//!
//! The stream's JSON is read by the caller; this module decides what each
//! message does to the earthquake table.
use vstd::prelude::*;
use crate::signal::types::SignalId;
use crate::text::{chars_of, has_prefix, starts_with, str_prefix};

verus! {

/// Well-known Flux earthquake signal IDs — parallel to WorldSignalIds.
pub struct FluxSignalIds {
    pub quake_rate: SignalId,
    pub quake_magnitude: SignalId,
    pub quake_depth: SignalId,
    pub quake_sig: SignalId,
}

/// The earthquake property a state update sets.
#[derive(Debug, Clone, Copy, PartialEq, Eq, Structural)]
pub enum QuakeField {
    Magnitude,
    DepthKm,
    Sig,
    /// Event time, in milliseconds since the epoch.
    Time,
}

/// What one stream message does to the earthquake table.
#[derive(Debug)]
pub enum FluxEvent {
    /// Make sure the entity exists, then set the field if one is given
    /// (other properties are ignored but still create the entity).
    Update { entity_id: String, field: Option<QuakeField> },
    /// Forget the entity.
    Delete { entity_id: String },
    /// Nothing to do.
    Ignore,
}

/// The namespace of earthquake entities.
pub open spec fn quake_namespace() -> Seq<char> {
    "flux-earthquakes/"@
}

/// The field a property name sets, if it is one that is tracked.
pub open spec fn field_of(property: Seq<char>) -> Option<QuakeField> {
    if property == "magnitude"@ {
        Some(QuakeField::Magnitude)
    } else if property == "depth_km"@ {
        Some(QuakeField::DepthKm)
    } else if property == "sig"@ {
        Some(QuakeField::Sig)
    } else if property == "time"@ {
        Some(QuakeField::Time)
    } else {
        None
    }
}

/// Whether `e` is the effect of a message with type `msg_type`, entity id
/// `entity_id`, property `property`, and a value present or not.
pub open spec fn flux_effect(
    msg_type: Option<Seq<char>>,
    entity_id: Option<Seq<char>>,
    property: Option<Seq<char>>,
    has_value: bool,
    e: FluxEvent,
) -> bool {
    match msg_type {
        Some(t) if t == "state_update"@ => match (entity_id, property) {
            (Some(id), Some(p)) if starts_with(id, quake_namespace()) && has_value => match e {
                FluxEvent::Update { entity_id: got, field } => got@ == id && field == field_of(p),
                _ => false,
            },
            _ => e is Ignore,
        },
        Some(t) if t == "entity_deleted"@ => match entity_id {
            Some(id) if starts_with(id, quake_namespace()) => match e {
                FluxEvent::Delete { entity_id: got } => got@ == id,
                _ => false,
            },
            _ => e is Ignore,
        },
        _ => e is Ignore,
    }
}

/// Whether `s` holds exactly the characters of `p`.
fn str_eq(s: &Vec<char>, p: &str) -> (r: bool)
    ensures
        r == (s@ == p@),
{
    let pv = chars_of(p);
    if s.len() != pv.len() {
        return false;
    }
    let r = has_prefix(s, &pv);
    if r {
        assert(s@ =~= pv@);
    } else {
        assert(s@.subrange(0, s@.len() as int) =~= s@);
    }
    r
}

fn field_of_exec(property: &Vec<char>) -> (r: Option<QuakeField>)
    ensures
        r == field_of(property@),
{
    if str_eq(property, "magnitude") {
        Some(QuakeField::Magnitude)
    } else if str_eq(property, "depth_km") {
        Some(QuakeField::DepthKm)
    } else if str_eq(property, "sig") {
        Some(QuakeField::Sig)
    } else if str_eq(property, "time") {
        Some(QuakeField::Time)
    } else {
        None
    }
}

/// What a stream message does: state updates of earthquake entities set one
/// tracked property (a value must be present), deletions of earthquake
/// entities remove them, and everything else is ignored.
pub fn classify_flux_message(
    msg_type: Option<&str>,
    entity_id: Option<&str>,
    property: Option<&str>,
    has_value: bool,
) -> (e: FluxEvent)
    ensures
        flux_effect(
            match msg_type { Some(t) => Some(t@), None => None },
            match entity_id { Some(t) => Some(t@), None => None },
            match property { Some(t) => Some(t@), None => None },
            has_value,
            e,
        ),
{
    let t = match msg_type {
        Some(t) => chars_of(t),
        None => { return FluxEvent::Ignore; },
    };
    if str_eq(&t, "state_update") {
        match (entity_id, property) {
            (Some(id), Some(p)) => {
                let idc = chars_of(id);
                if str_prefix(&idc, "flux-earthquakes/") && has_value {
                    let pc = chars_of(p);
                    let field = field_of_exec(&pc);
                    FluxEvent::Update { entity_id: id.to_owned(), field }
                } else {
                    FluxEvent::Ignore
                }
            },
            _ => FluxEvent::Ignore,
        }
    } else if str_eq(&t, "entity_deleted") {
        match entity_id {
            Some(id) => {
                let idc = chars_of(id);
                if str_prefix(&idc, "flux-earthquakes/") {
                    FluxEvent::Delete { entity_id: id.to_owned() }
                } else {
                    FluxEvent::Ignore
                }
            },
            None => FluxEvent::Ignore,
        }
    } else {
        FluxEvent::Ignore
    }
}

/// The name of the stream property that carries each tracked field.
pub open spec fn property_name(f: QuakeField) -> Seq<char> {
    match f {
        QuakeField::Magnitude => "magnitude"@,
        QuakeField::DepthKm => "depth_km"@,
        QuakeField::Sig => "sig"@,
        QuakeField::Time => "time"@,
    }
}

/// A property sets the field of the same name, and only that one: a state
/// update of an earthquake entity whose property is a field's name, with a
/// value present, updates that entity's field `f`; any other property sets
/// no field.
pub proof fn law_property_names_its_field(id: Seq<char>, property: Seq<char>, f: QuakeField, e: FluxEvent)
    requires
        starts_with(id, quake_namespace()),
        flux_effect(Some("state_update"@), Some(id), Some(property), true, e),
    ensures
        property == property_name(f) ==> (e matches FluxEvent::Update { entity_id, field } && entity_id@ == id
            && field == Some(f)),
        field_of(property) == Some(f) <==> property == property_name(f),
{
    reveal_strlit("state_update");
    reveal_strlit("entity_deleted");
    reveal_strlit("magnitude");
    reveal_strlit("depth_km");
    reveal_strlit("sig");
    reveal_strlit("time");
    assert("magnitude"@.len() == 9);
    assert("depth_km"@.len() == 8);
    assert("sig"@.len() == 3);
    assert("time"@.len() == 4);
    assert("state_update"@.len() == 12);
    assert("entity_deleted"@.len() == 14);
    assert("state_update"@ != "entity_deleted"@);
    match f {
        QuakeField::Magnitude => {},
        QuakeField::DepthKm => {
            assert("depth_km"@ != "magnitude"@);
        },
        QuakeField::Sig => {
            assert("sig"@ != "magnitude"@ && "sig"@ != "depth_km"@);
        },
        QuakeField::Time => {
            assert("time"@ != "magnitude"@ && "time"@ != "depth_km"@ && "time"@ != "sig"@);
        },
    }
}

} // verus!
