use prisma_crdt::api::TagAssignArgs;
use prisma_crdt::api::TagAssignment;
use prisma_crdt::job::ScanRoot;
use prisma_crdt::job::ShallowThumbnailerJob;
use prisma_crdt::job::ShallowThumbnailerJobInit;
use prisma_crdt::job::Step;
use prisma_crdt::job::StepKind;
use prisma_crdt::node::node_name;
use prisma_crdt::node::HostName;
use prisma_crdt::node::LibraryNode;
use prisma_crdt::node::NodeData;
use prisma_crdt::node::NodeError;
use prisma_crdt::node::NodeStep;
use prisma_crdt::node::Platform;

#[test]
fn platform_numbers() {
    let all = [
        Platform::Unknown,
        Platform::Windows,
        Platform::MacOS,
        Platform::Linux,
        Platform::IOS,
        Platform::Android,
    ];
    for (n, platform) in all.iter().enumerate() {
        assert_eq!(platform.int_value(), n as i32);
        assert_eq!(Platform::from_int(n as i32), Some(*platform));
    }
    assert_eq!(Platform::from_int(6), None);
    assert_eq!(Platform::from_int(-1), None);
}

#[test]
fn platform_of_an_operating_system() {
    assert_eq!(Platform::from_os("windows"), Platform::Windows);
    assert_eq!(Platform::from_os("macos"), Platform::MacOS);
    assert_eq!(Platform::from_os("linux"), Platform::Linux);
    assert_eq!(Platform::from_os("ios"), Platform::Unknown);
    assert_eq!(Platform::from_os("Linux"), Platform::Unknown);
    assert_eq!(Platform::from_os(""), Platform::Unknown);
}

#[test]
fn name_of_a_node() {
    assert_eq!(node_name(HostName::Name("box".to_string())), "box");
    assert_eq!(node_name(HostName::Unreadable), "");
    assert_eq!(node_name(HostName::Unavailable), "unknown");
}

#[test]
fn entering_a_node_into_the_store() {
    let step = LibraryNode::create(vec![1, 2], HostName::Name("box".to_string()), "linux", None);
    assert_eq!(step, NodeStep::Create { pub_id: vec![1, 2], name: "box".to_string(), platform: 3 });
    let found = NodeData { id: 7, pub_id: vec![1, 2], name: "old".to_string(), platform: 3 };
    let step = LibraryNode::create(vec![1, 2], HostName::Unavailable, "linux", Some(found));
    assert_eq!(step, NodeStep::Configure { node_name: "unknown".to_string(), node_id: 7 });
}

#[test]
fn message_of_a_node_error() {
    assert_eq!(NodeError::DatabaseError("connection lost".to_string()).message(), "Database error");
}

#[test]
fn assigning_and_unassigning_a_tag() {
    let assign = TagAssignArgs { file_id: 4, tag_id: 9, unassign: false };
    assert_eq!(assign.assignment(), TagAssignment::Assign { tag_id: 9, file_id: 4 });
    let unassign = TagAssignArgs { file_id: 4, tag_id: 9, unassign: true };
    assert_eq!(unassign.assignment(), TagAssignment::Unassign { tag_id: 9, file_id: 4 });
}

#[test]
fn steps_of_a_thumbnailer_job() {
    let steps = ShallowThumbnailerJob::steps(vec!["a.png", "b.jpg"], vec!["c.mp4"]);
    assert_eq!(
        steps,
        vec![
            Step { file_path: "a.png", kind: StepKind::Image },
            Step { file_path: "b.jpg", kind: StepKind::Image },
            Step { file_path: "c.mp4", kind: StepKind::Video },
        ]
    );
    assert!(ShallowThumbnailerJob::steps(Vec::<u8>::new(), vec![]).is_empty());
    assert_eq!(ShallowThumbnailerJob::new(), ShallowThumbnailerJob {});
}

#[test]
fn where_a_thumbnailer_job_looks() {
    let mut init =
        ShallowThumbnailerJobInit { location_id: 1, location_path: "/data".to_string(), sub_path: String::new() };
    assert_eq!(init.scan_root(), ScanRoot::Location);
    init.sub_path = "photos".to_string();
    assert_eq!(init.scan_root(), ScanRoot::SubPath);
}
