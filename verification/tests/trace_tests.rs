use alibaba_graph::request::ConnectionProp;
use alibaba_graph::trace::{select_edge, EdgeSpec, TraceIds};

fn ids(um: &str, umi: &str, dm: &str, dmi: &str) -> TraceIds {
    TraceIds {
        um: um.to_string(),
        uminstanceid: umi.to_string(),
        dm: dm.to_string(),
        dminstanceid: dmi.to_string(),
    }
}

fn pair(a: &str, b: &str) -> (String, String) {
    (a.to_string(), b.to_string())
}

#[test]
fn edge_between_microservices() {
    let e = select_edge(&ids("U", "Ui", "D", "Di"), &ConnectionProp::MicroserviceId);
    assert_eq!(
        e,
        Some(EdgeSpec {
            src: "U".to_string(),
            dst: "D".to_string(),
            props: vec![pair("uminstanceid", "Ui"), pair("dminstanceid", "Di")],
        })
    );
}

#[test]
fn edge_between_instances() {
    let e = select_edge(&ids("U", "Ui", "D", "Di"), &ConnectionProp::InstanceId);
    assert_eq!(
        e,
        Some(EdgeSpec {
            src: "Ui".to_string(),
            dst: "Di".to_string(),
            props: vec![pair("um", "U"), pair("dm", "D")],
        })
    );
}

#[test]
fn unusable_endpoints_give_no_edge() {
    let m = ConnectionProp::MicroserviceId;
    let i = ConnectionProp::InstanceId;
    assert_eq!(select_edge(&ids("", "Ui", "D", "Di"), &m), None);
    assert_eq!(select_edge(&ids("U", "Ui", "UNKNOWN", "Di"), &m), None);
    assert!(select_edge(&ids("U", "", "D", "UNKNOWN"), &m).is_some());
    assert_eq!(select_edge(&ids("U", "UNKNOWN", "D", "Di"), &i), None);
    assert_eq!(select_edge(&ids("U", "Ui", "D", ""), &i), None);
    assert!(select_edge(&ids("", "Ui", "UNKNOWN", "Di"), &i).is_some());
    assert!(select_edge(&ids("unknown", "Ui", "D", "Di"), &m).is_some());
}
