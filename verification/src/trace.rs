//! Which call-trace records become graph edges, and between which
//! identifiers.
use vstd::prelude::*;
use crate::request::ConnectionProp;
use crate::text::str_eq;

verus! {

/// The identifiers of one call-trace record: the calling (upstream) and called
/// (downstream) microservice, and their instances.
#[derive(Debug, PartialEq, Eq)]
pub struct TraceIds {
    pub um: String,
    pub uminstanceid: String,
    pub dm: String,
    pub dminstanceid: String,
}

/// The edge that a record adds: its endpoints, and the two identifiers that
/// are not endpoints, as named properties.
#[derive(Debug, PartialEq, Eq)]
pub struct EdgeSpec {
    pub src: String,
    pub dst: String,
    pub props: Vec<(String, String)>,
}

/// An identifier that no edge may use: an empty one or `UNKNOWN`.
pub open spec fn is_unusable_id(id: Seq<char>) -> bool {
    id.len() == 0 || id == "UNKNOWN"@
}

fn unusable_id(id: &String) -> (r: bool)
    ensures
        r == is_unusable_id(id@),
{
    id.as_str().unicode_len() == 0 || str_eq(id.as_str(), "UNKNOWN")
}

/// Whether `e` is the edge from `src` to `dst` with the properties named
/// `name0` and `name1` set to `value0` and `value1`.
pub open spec fn is_edge(
    e: EdgeSpec,
    src: Seq<char>,
    dst: Seq<char>,
    name0: Seq<char>,
    value0: Seq<char>,
    name1: Seq<char>,
    value1: Seq<char>,
) -> bool {
    &&& e.src@ == src
    &&& e.dst@ == dst
    &&& e.props@.len() == 2
    &&& e.props@[0].0@ == name0
    &&& e.props@[0].1@ == value0
    &&& e.props@[1].0@ == name1
    &&& e.props@[1].1@ == value1
}

/// The edge that the record `ids` adds, if any. Connected by microservice,
/// the edge runs from the upstream to the downstream microservice and carries
/// both instances; connected by instance, it runs between the instances and
/// carries both microservices. A record with an unusable endpoint adds none.
pub fn select_edge(ids: &TraceIds, connection_prop: &ConnectionProp) -> (r: Option<EdgeSpec>)
    ensures
        match connection_prop {
            ConnectionProp::MicroserviceId => {
                &&& r is None <==> is_unusable_id(ids.dm@) || is_unusable_id(ids.um@)
                &&& r matches Some(e) ==> is_edge(
                    e,
                    ids.um@,
                    ids.dm@,
                    "uminstanceid"@,
                    ids.uminstanceid@,
                    "dminstanceid"@,
                    ids.dminstanceid@,
                )
            },
            ConnectionProp::InstanceId => {
                &&& r is None <==> is_unusable_id(ids.dminstanceid@) || is_unusable_id(
                    ids.uminstanceid@,
                )
                &&& r matches Some(e) ==> is_edge(
                    e,
                    ids.uminstanceid@,
                    ids.dminstanceid@,
                    "um"@,
                    ids.um@,
                    "dm"@,
                    ids.dm@,
                )
            },
        },
        *connection_prop is MicroserviceId ==> (r is Some <==> (ids.um@.len() > 0 && ids.um@
            != "UNKNOWN"@ && ids.dm@.len() > 0 && ids.dm@ != "UNKNOWN"@)),
        *connection_prop is InstanceId ==> (r is Some <==> (ids.uminstanceid@.len() > 0
            && ids.uminstanceid@ != "UNKNOWN"@ && ids.dminstanceid@.len() > 0 && ids.dminstanceid@
            != "UNKNOWN"@)),
{
    match connection_prop {
        ConnectionProp::MicroserviceId => {
            if unusable_id(&ids.dm) || unusable_id(&ids.um) {
                return None;
            }
            let mut props: Vec<(String, String)> = Vec::new();
            props.push((String::from_str("uminstanceid"), ids.uminstanceid.clone()));
            props.push((String::from_str("dminstanceid"), ids.dminstanceid.clone()));
            Some(EdgeSpec { src: ids.um.clone(), dst: ids.dm.clone(), props })
        },
        ConnectionProp::InstanceId => {
            if unusable_id(&ids.dminstanceid) || unusable_id(&ids.uminstanceid) {
                return None;
            }
            let mut props: Vec<(String, String)> = Vec::new();
            props.push((String::from_str("um"), ids.um.clone()));
            props.push((String::from_str("dm"), ids.dm.clone()));
            Some(EdgeSpec { src: ids.uminstanceid.clone(), dst: ids.dminstanceid.clone(), props })
        },
    }
}

/// Only two identifiers keep a record out of the graph: the empty one and
/// `UNKNOWN`. Any other identifier, whatever characters it holds, can be an
/// edge's endpoint.
pub proof fn law_only_empty_or_unknown_unusable(id: Seq<char>)
    ensures
        is_unusable_id(Seq::<char>::empty()),
        is_unusable_id("UNKNOWN"@),
        id.len() > 0 && id != "UNKNOWN"@ ==> !is_unusable_id(id),
{
}

} // verus!
