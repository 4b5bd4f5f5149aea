use xenstore_win::multiplex::{
    check_class_notification, CmAction, NotifyError, RefreshPlan, Registry, WorkerStep,
    XenifaceRequest,
};

type Reg = Registry<&'static str, u32, u64, u64>;

#[test]
fn new_registry_is_empty() {
    let reg = Reg::new();
    assert!(reg.active().is_none());
    assert!(reg.active_id().is_none());
    assert!(reg.watches().is_empty());
    assert!(reg.suspends().is_empty());
    assert!(reg.has_free_id());
}

#[test]
fn added_watches_get_fresh_ids_in_order() {
    let mut reg = Reg::new();
    let a = reg.add_watch("data/a".to_string(), 10, None);
    let b = reg.add_watch("data/b".to_string(), 11, Some(7));
    let s = reg.add_suspend(12, None);
    assert_ne!(a, b);
    assert_ne!(b, s);
    let w = reg.watches();
    assert_eq!(w.len(), 2);
    assert_eq!((w[0].id, w[0].subject.as_str(), w[0].event, w[0].binding), (a, "data/a", 10, None));
    assert_eq!((w[1].id, w[1].subject.as_str(), w[1].event, w[1].binding), (b, "data/b", 11, Some(7)));
    assert_eq!(reg.suspends().len(), 1);
    assert_eq!(reg.watch_event(b), Some(&11));
    assert_eq!(reg.suspend_event(s), Some(&12));
    assert_eq!(reg.watch_event(s), None);
}

#[test]
fn removing_watch_keeps_others_in_order() {
    let mut reg = Reg::new();
    let a = reg.add_watch("a".to_string(), 1, None);
    let b = reg.add_watch("b".to_string(), 2, None);
    let c = reg.add_watch("c".to_string(), 3, None);
    let removed = reg.remove_watch(b).unwrap();
    assert_eq!((removed.id, removed.subject.as_str(), removed.event), (b, "b", 2));
    let ids: Vec<u64> = reg.watches().iter().map(|w| w.id).collect();
    assert_eq!(ids, vec![a, c]);
    assert!(reg.remove_watch(b).is_none());
    assert_eq!(reg.watch_event(b), None);
}

#[test]
fn removing_suspend_by_id() {
    let mut reg = Reg::new();
    let s = reg.add_suspend(5, Some(9));
    let removed = reg.remove_suspend(s).unwrap();
    assert_eq!((removed.id, removed.event, removed.binding), (s, 5, Some(9)));
    assert!(reg.suspends().is_empty());
    assert!(reg.remove_suspend(s).is_none());
}

#[test]
fn remove_undoes_add() {
    let mut reg = Reg::new();
    reg.add_watch("a".to_string(), 1, None);
    let before: Vec<u64> = reg.watches().iter().map(|w| w.id).collect();
    let id = reg.add_watch("b".to_string(), 2, None);
    let removed = reg.remove_watch(id).unwrap();
    assert_eq!(removed.id, id);
    let after: Vec<u64> = reg.watches().iter().map(|w| w.id).collect();
    assert_eq!(before, after);
}

#[test]
fn refresh_plan_decisions() {
    let mut reg = Reg::new();
    assert_eq!(reg.refresh_plan(0, true), RefreshPlan::NoInterface);
    assert_eq!(reg.refresh_plan(2, true), RefreshPlan::Replace);
    reg.install_active(1, "dev1", vec![], vec![]);
    assert_eq!(reg.refresh_plan(0, true), RefreshPlan::NoInterface);
    assert_eq!(reg.refresh_plan(1, true), RefreshPlan::KeepActive);
    assert_eq!(reg.refresh_plan(1, false), RefreshPlan::Replace);
}

#[test]
fn install_rebinds_every_registration() {
    let mut reg = Reg::new();
    let a = reg.add_watch("a".to_string(), 1, None);
    let b = reg.add_watch("b".to_string(), 2, Some(100));
    let s = reg.add_suspend(3, None);
    assert_eq!(reg.retire_active(), None);
    reg.install_active(8, "dev8", vec![Some(20), None], vec![Some(30)]);
    assert_eq!(reg.active(), Some(&"dev8"));
    assert_eq!(reg.active_id(), Some(8));
    let w = reg.watches();
    assert_eq!((w[0].id, w[0].event, w[0].binding), (a, 1, Some(20)));
    assert_eq!((w[1].id, w[1].event, w[1].binding), (b, 2, None));
    let sp = reg.suspends();
    assert_eq!((sp[0].id, sp[0].event, sp[0].binding), (s, 3, Some(30)));
}

#[test]
fn retire_takes_active_device() {
    let mut reg = Reg::new();
    reg.install_active(4, "dev4", vec![], vec![]);
    assert_eq!(reg.retire_active(), Some("dev4"));
    assert!(reg.active().is_none());
}

#[test]
fn arrival_asks_for_refresh() {
    let mut reg = Reg::new();
    let step = reg.handle_request::<&str>(XenifaceRequest::Worker(CmAction::InterfaceArrival));
    assert!(matches!(step, WorkerStep::Refresh));
    let step = reg.handle_request::<&str>(XenifaceRequest::Worker(CmAction::InterfaceRemoval));
    assert!(matches!(step, WorkerStep::Idle));
}

#[test]
fn removal_of_active_device_detaches_it() {
    let mut reg = Reg::new();
    reg.install_active(3, "dev3", vec![], vec![]);
    let step = reg.handle_request(XenifaceRequest::Listener {
        action: CmAction::RemoveComplete,
        target_id: 3,
        target: "dev3",
    });
    match step {
        WorkerStep::Bury { target, detached } => {
            assert_eq!(target, "dev3");
            assert_eq!(detached, Some("dev3"));
        }
        _ => panic!("expected the device to be put aside"),
    }
    assert!(reg.active().is_none());
}

#[test]
fn removal_of_other_device_keeps_active() {
    let mut reg = Reg::new();
    reg.install_active(3, "dev3", vec![], vec![]);
    let step = reg.handle_request(XenifaceRequest::Listener {
        action: CmAction::RemovePending,
        target_id: 5,
        target: "dev5",
    });
    match step {
        WorkerStep::Bury { target, detached } => {
            assert_eq!(target, "dev5");
            assert_eq!(detached, None);
        }
        _ => panic!("expected the device to be put aside"),
    }
    assert_eq!(reg.active_id(), Some(3));
}

#[test]
fn other_device_notification_is_ignored() {
    let mut reg = Reg::new();
    reg.install_active(3, "dev3", vec![], vec![]);
    let step = reg.handle_request(XenifaceRequest::Listener {
        action: CmAction::QueryRemove,
        target_id: 3,
        target: "dev3",
    });
    assert!(matches!(step, WorkerStep::Idle));
    assert_eq!(reg.active_id(), Some(3));
}

#[test]
fn query_remove_closes_handle() {
    assert!(CmAction::QueryRemove.closes_handle());
    assert!(CmAction::QueryRemoveFailed.closes_handle());
    assert!(!CmAction::RemoveComplete.closes_handle());
    assert!(!CmAction::InterfaceArrival.closes_handle());
}

#[test]
fn class_notification_checks() {
    assert_eq!(check_class_notification(false, 100, 40), Err(NotifyError::NoContext));
    assert_eq!(check_class_notification(true, 39, 40), Err(NotifyError::ShortEventData));
    assert_eq!(check_class_notification(true, 40, 40), Ok(()));
}

#[test]
fn detaching_active_device_keeps_bindings() {
    let mut reg = Reg::new();
    let a = reg.add_watch("a".to_string(), 1, None);
    reg.install_active(3, "dev3", vec![Some(40)], vec![]);
    let step = reg.handle_request(XenifaceRequest::Listener {
        action: CmAction::RemovePending,
        target_id: 3,
        target: "dev3",
    });
    assert!(matches!(step, WorkerStep::Bury { detached: Some("dev3"), .. }));
    let w = reg.watches();
    assert_eq!((w[0].id, w[0].binding), (a, Some(40)));
}
