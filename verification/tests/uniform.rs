use rosten::uniform::{PushConstant, UniformBuffer};

#[test]
fn uniform_staleness_upload_is_per_slot() {
    let mut ub: UniformBuffer<u32> = UniformBuffer::new(2, 7);
    assert_eq!(ub.slot_count(), 2);
    assert_eq!(ub.slot_value(0), 7);
    assert_eq!(ub.slot_value(1), 7);
    assert!(ub.slot_valid(0));
    assert!(ub.slot_valid(1));

    // a write invalidates every slot
    ub.access_data(9);
    assert_eq!(ub.data(), 9);
    assert!(!ub.slot_valid(0));
    assert!(!ub.slot_valid(1));

    // binding slot 0 uploads the new value there, exactly once; slot 1
    // stays stale with its old contents until bound itself
    ub.bind(0);
    assert_eq!(ub.slot_value(0), 9);
    assert!(ub.slot_valid(0));
    assert!(!ub.slot_valid(1));
    assert_eq!(ub.slot_value(1), 7);

    ub.bind(1);
    assert_eq!(ub.slot_value(1), 9);
    assert!(ub.slot_valid(1));
}

#[test]
fn uniform_rebinding_a_valid_slot_changes_nothing() {
    let mut ub: UniformBuffer<u64> = UniformBuffer::new(3, 1);
    ub.access_data(2);
    ub.bind(2);
    ub.bind(2);
    assert_eq!(ub.slot_value(2), 2);
    assert!(!ub.slot_valid(0));
    assert!(!ub.slot_valid(1));
}

#[test]
fn push_constant_keeps_latest_value() {
    let mut pc: PushConstant<u32> = PushConstant::new(5);
    assert_eq!(pc.data(), 5);
    pc.access_data(11);
    assert_eq!(pc.data(), 11);
}
