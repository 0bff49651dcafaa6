use nitrocop::cop::lint::constant_reassignment::{ConstantEvent, ConstantReassignment};

fn write(name: &[u8], start: usize) -> ConstantEvent {
    ConstantEvent::Write { name: name.to_vec(), start }
}

fn enter(name: &[u8]) -> ConstantEvent {
    ConstantEvent::EnterNamespace { name: name.to_vec() }
}

const SRC: &[u8] = b"FOO = 1\nFOO = 2\nclass A\n  FOO = 3\nend\n";

#[test]
fn reassignment_reported() {
    let diags = ConstantReassignment.check_source(SRC, &vec![write(b"FOO", 0), write(b"FOO", 8)]);
    assert_eq!(diags.len(), 1);
    assert_eq!((diags[0].location.line, diags[0].location.column), (2, 0));
    assert_eq!(String::from_utf8(diags[0].message.clone()).unwrap(), "Constant `FOO` is already assigned in this namespace.");
}

#[test]
fn namespaces_and_conditionals() {
    let events = vec![write(b"FOO", 0), enter(b"A"), write(b"FOO", 26), ConstantEvent::LeaveNamespace];
    assert!(ConstantReassignment.check_source(SRC, &events).is_empty());
    let events = vec![ConstantEvent::EnterConditional, write(b"FOO", 0), ConstantEvent::LeaveConditional, write(b"FOO", 8)];
    assert!(ConstantReassignment.check_source(SRC, &events).is_empty());
    let events = vec![
        ConstantEvent::EnterConditional,
        enter(b"A"),
        write(b"FOO", 0),
        write(b"FOO", 8),
        ConstantEvent::LeaveNamespace,
        ConstantEvent::LeaveConditional,
    ];
    assert_eq!(ConstantReassignment.check_source(SRC, &events).len(), 1);
}

#[test]
fn remove_const_and_paths() {
    let events = vec![write(b"FOO", 0), ConstantEvent::RemoveConst { name: b"FOO".to_vec() }, write(b"FOO", 8)];
    assert!(ConstantReassignment.check_source(SRC, &events).is_empty());
    let path = ConstantEvent::PathWrite { segments: Some(vec![b"FOO".to_vec()]), absolute: true, name: b"FOO".to_vec(), start: 8 };
    assert_eq!(ConstantReassignment.check_source(SRC, &vec![write(b"FOO", 0), path]).len(), 1);
    let nested = ConstantEvent::PathWrite { segments: Some(vec![b"A".to_vec(), b"FOO".to_vec()]), absolute: false, name: b"FOO".to_vec(), start: 8 };
    let events = vec![enter(b"A"), ConstantEvent::LeaveNamespace, nested, write(b"FOO", 0)];
    assert!(ConstantReassignment.check_source(SRC, &events).is_empty());
    let variable = ConstantEvent::PathWrite { segments: None, absolute: false, name: b"FOO".to_vec(), start: 8 };
    assert!(ConstantReassignment.check_source(SRC, &vec![write(b"FOO", 0), variable]).is_empty());
    let in_a = ConstantEvent::PathWrite { segments: Some(vec![b"A".to_vec(), b"FOO".to_vec()]), absolute: false, name: b"FOO".to_vec(), start: 8 };
    let events = vec![in_a, enter(b"A"), write(b"FOO", 26), ConstantEvent::LeaveNamespace];
    assert_eq!(ConstantReassignment.check_source(SRC, &events).len(), 1);
}
