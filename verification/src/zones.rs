use vstd::prelude::*;

verus! {

/// One edge of the zone graph: where it leads, and through which waypoint
/// if any.
pub struct Connection {
    pub destination: String,
    pub via: Option<String>,
}

/// A named zone and its outgoing connections.
pub struct Zone {
    pub name: String,
    pub parent: Option<String>,
    pub connections: Vec<Connection>,
}

/// Two connections are the same when they lead to the same place through
/// the same waypoint.
pub open spec fn spec_conn_eq(a: Connection, b: Connection) -> bool {
    &&& a.destination@ == b.destination@
    &&& (match (a.via, b.via) {
        (Some(x), Some(y)) => x@ == y@,
        (None, None) => true,
        _ => false,
    })
}

impl Connection {
    /// The reciprocal edge as seen from the source zone: same waypoint,
    /// destination turned back to the source.
    pub fn flip(&self, source: &Zone) -> (r: Connection)
        ensures
            r.destination@ == source.name@,
            (match (r.via, self.via) {
                (Some(x), Some(y)) => x@ == y@,
                (None, None) => true,
                _ => false,
            }),
    {
        Connection {
            destination: source.name.clone(),
            via: match &self.via {
                Some(v) => Some(v.clone()),
                None => None,
            },
        }
    }
}

/// Whether a zone of the given name is defined.
pub open spec fn spec_zone_defined(zones: Seq<Zone>, name: Seq<char>) -> bool {
    exists|i: int| 0 <= i < zones.len() && (#[trigger] zones[i]).name@ == name
}

/// Whether one connection is sound: its destination and waypoint are
/// defined zones.
pub open spec fn spec_conn_defined(zones: Seq<Zone>, c: Connection) -> bool {
    &&& spec_zone_defined(zones, c.destination@)
    &&& (c.via is Some ==> spec_zone_defined(zones, c.via.unwrap()@))
}

/// Whether a connection is reciprocated: some zone named its destination
/// carries the edge back to the source through the same waypoint.
pub open spec fn spec_conn_reciprocated(zones: Seq<Zone>, src_name: Seq<char>, c: Connection) -> bool {
    exists|j: int, t: int|
        0 <= j < zones.len() && (#[trigger] zones[j]).name@ == c.destination@ && 0 <= t < zones[
            j
        ].connections.len() && (#[trigger] zones[j].connections@[t]).destination@ == src_name
            && (match (zones[j].connections@[t].via, c.via) {
            (Some(x), Some(y)) => x@ == y@,
            (None, None) => true,
            _ => false,
        })
}

/// A reciprocated connection holds exactly the flipped edge: the match on
/// the waypoints above is connection equality against the flip.
pub proof fn lemma_reciprocal_is_flip(zones: Seq<Zone>, i: int, k: int, j: int, t: int)
    requires
        0 <= i < zones.len(),
        0 <= k < zones[i].connections.len(),
        0 <= j < zones.len(),
        0 <= t < zones[j].connections.len(),
        zones[j].name@ == zones[i].connections@[k].destination@,
        zones[j].connections@[t].destination@ == zones[i].name@,
        (match (zones[j].connections@[t].via, zones[i].connections@[k].via) {
            (Some(x), Some(y)) => x@ == y@,
            (None, None) => true,
            _ => false,
        }),
    ensures
        spec_conn_eq(
            zones[j].connections@[t],
            Connection {
                destination: zones[i].name,
                via: zones[i].connections@[k].via,
            },
        ),
{
}

/// The whole graph is sound: every connection's destination and waypoint
/// are defined, and every connection is reciprocated by its destination.
pub open spec fn spec_zones_ok(zones: Seq<Zone>) -> bool {
    forall|i: int, k: int|
        0 <= i < zones.len() && 0 <= k < (#[trigger] zones[i]).connections.len() ==> {
            &&& spec_conn_defined(zones, #[trigger] zones[i].connections@[k])
            &&& spec_conn_reciprocated(zones, zones[i].name@, zones[i].connections@[k])
        }
}

/// Checks the zone graph: every connection's destination and waypoint must
/// be a defined zone, and every connection must be reciprocated by its
/// destination — exactly the sound graphs pass.
pub fn verify_zones(zones: &Vec<Zone>) -> (r: bool)
    ensures
        r <==> spec_zones_ok(zones@),
{
    let mut i: usize = 0;
    while i < zones.len()
        invariant
            i <= zones.len(),
            forall|q: int, t: int|
                0 <= q < i && 0 <= t < (#[trigger] zones@[q]).connections.len() ==> {
                    &&& spec_conn_defined(zones@, #[trigger] zones@[q].connections@[t])
                    &&& spec_conn_reciprocated(
                        zones@,
                        zones@[q].name@,
                        zones@[q].connections@[t],
                    )
                },
        decreases zones.len() - i,
    {
        let mut k: usize = 0;
        while k < zones[i].connections.len()
            invariant
                i < zones.len(),
                k <= zones@[i as int].connections.len(),
                forall|q: int, t: int|
                    0 <= q < i && 0 <= t < (#[trigger] zones@[q]).connections.len() ==> {
                        &&& spec_conn_defined(zones@, #[trigger] zones@[q].connections@[t])
                        &&& spec_conn_reciprocated(
                            zones@,
                            zones@[q].name@,
                            zones@[q].connections@[t],
                        )
                    },
                forall|t: int|
                    0 <= t < k ==> {
                        &&& spec_conn_defined(
                            zones@,
                            #[trigger] zones@[i as int].connections@[t],
                        )
                        &&& spec_conn_reciprocated(
                            zones@,
                            zones@[i as int].name@,
                            zones@[i as int].connections@[t],
                        )
                    },
            decreases zones@[i as int].connections.len() - k,
        {
            let conn = &zones[i].connections[k];
            if !zone_defined(zones, &conn.destination) {
                return false;
            }
            if let Some(via) = &conn.via {
                if !zone_defined(zones, via) {
                    return false;
                }
            }
            if !reciprocated(zones, i, k) {
                return false;
            }
            k += 1;
        }
        i += 1;
    }
    true
}

/// Whether some zone carries the given name.
fn zone_defined(zones: &Vec<Zone>, name: &String) -> (r: bool)
    ensures
        r <==> spec_zone_defined(zones@, name@),
{
    let mut i: usize = 0;
    while i < zones.len()
        invariant
            i <= zones.len(),
            forall|k: int| 0 <= k < i ==> (#[trigger] zones@[k]).name@ != name@,
        decreases zones.len() - i,
    {
        if zones[i].name.eq(name) {
            return true;
        }
        i += 1;
    }
    false
}

/// Whether connection `k` of zone `i` comes back: some zone named its
/// destination holds the flipped edge.
fn reciprocated(zones: &Vec<Zone>, i: usize, k: usize) -> (r: bool)
    requires
        i < zones.len(),
        k < zones@[i as int].connections.len(),
    ensures
        r <==> spec_conn_reciprocated(
            zones@,
            zones@[i as int].name@,
            zones@[i as int].connections@[k as int],
        ),
{
    let mut j: usize = 0;
    while j < zones.len()
        invariant
            j <= zones.len(),
            i < zones.len(),
            k < zones@[i as int].connections.len(),
            forall|q: int, t: int|
                0 <= q < j && (#[trigger] zones@[q]).name@ == zones@[
                    i as int
                ].connections@[k as int].destination@ && 0 <= t < zones@[q].connections.len()
                    ==> !((#[trigger] zones@[q].connections@[t]).destination@ == zones@[
                    i as int
                ].name@ && (match (zones@[q].connections@[t].via, zones@[
                    i as int
                ].connections@[k as int].via) {
                    (Some(x), Some(y)) => x@ == y@,
                    (None, None) => true,
                    _ => false,
                })),
        decreases zones.len() - j,
    {
        if zones[j].name.eq(&zones[i].connections[k].destination) {
            let mut t: usize = 0;
            while t < zones[j].connections.len()
                invariant
                    j < zones.len(),
                    i < zones.len(),
                    k < zones@[i as int].connections.len(),
                    t <= zones@[j as int].connections.len(),
                    zones@[j as int].name@ == zones@[i as int].connections@[
                        k as int
                    ].destination@,
                    forall|q: int|
                        0 <= q < t ==> !((#[trigger] zones@[
                            j as int
                        ].connections@[q]).destination@ == zones@[i as int].name@ && (match (
                        zones@[j as int].connections@[q].via, zones@[i as int].connections@[
                            k as int
                        ].via) {
                            (Some(x), Some(y)) => x@ == y@,
                            (None, None) => true,
                            _ => false,
                        })),
                decreases zones@[j as int].connections.len() - t,
            {
                let back = &zones[j].connections[t];
                let here = &zones[i].connections[k];
                if back.destination.eq(&zones[i].name) {
                    let via_match = match (&back.via, &here.via) {
                        (Some(x), Some(y)) => x.eq(y),
                        (None, None) => true,
                        _ => false,
                    };
                    if via_match {
                        return true;
                    }
                }
                t += 1;
            }
        }
        j += 1;
    }
    false
}

} // verus!
