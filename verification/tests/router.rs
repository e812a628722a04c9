use domain_actions::domain_actions::DomainActionTypes;
use domain_actions::routing::DomainActionRouter;

#[test]
fn new_router_knows_no_executor() {
    let router: DomainActionRouter<&str> = DomainActionRouter::new();
    for action_type in [
        DomainActionTypes::SendEmail,
        DomainActionTypes::RedeemOnChain,
        DomainActionTypes::RegenerateDripActions,
        DomainActionTypes::BroadcastPushNotification,
        DomainActionTypes::ProcessTransferDrip,
        DomainActionTypes::UpdateGenres,
    ] {
        assert_eq!(router.get_executor_for(action_type), None);
        assert!(!router.has_executor_for(action_type));
    }
}

#[test]
fn registered_executor_is_found_under_its_type_only() {
    let mut router: DomainActionRouter<&str> = DomainActionRouter::new();
    router.register(DomainActionTypes::SendEmail, "mailer");
    router.register(DomainActionTypes::RedeemOnChain, "chain");
    assert_eq!(router.get_executor_for(DomainActionTypes::SendEmail), Some(&"mailer"));
    assert_eq!(router.get_executor_for(DomainActionTypes::RedeemOnChain), Some(&"chain"));
    assert_eq!(router.get_executor_for(DomainActionTypes::UpdateGenres), None);
    assert!(router.has_executor_for(DomainActionTypes::SendEmail));
}

#[test]
fn last_registration_wins() {
    let mut router: DomainActionRouter<&str> = DomainActionRouter::new();
    router.register(DomainActionTypes::SendEmail, "first");
    router.register(DomainActionTypes::ProcessTransferDrip, "drip");
    router.register(DomainActionTypes::SendEmail, "second");
    assert_eq!(router.get_executor_for(DomainActionTypes::SendEmail), Some(&"second"));
    assert_eq!(router.get_executor_for(DomainActionTypes::ProcessTransferDrip), Some(&"drip"));
}

#[test]
fn every_type_has_a_slot_of_its_own() {
    let mut router: DomainActionRouter<u8> = DomainActionRouter::new();
    let types = [
        DomainActionTypes::SendEmail,
        DomainActionTypes::RedeemOnChain,
        DomainActionTypes::RegenerateDripActions,
        DomainActionTypes::BroadcastPushNotification,
        DomainActionTypes::ProcessTransferDrip,
        DomainActionTypes::UpdateGenres,
    ];
    for (i, action_type) in types.iter().enumerate() {
        router.register(*action_type, i as u8);
    }
    for (i, action_type) in types.iter().enumerate() {
        assert_eq!(router.get_executor_for(*action_type), Some(&(i as u8)));
    }
}

#[test]
fn missing_executors_lists_the_types_without_executor() {
    let mut router: DomainActionRouter<u8> = DomainActionRouter::new();
    assert_eq!(
        router.missing_executors(),
        vec![
            DomainActionTypes::SendEmail,
            DomainActionTypes::RedeemOnChain,
            DomainActionTypes::RegenerateDripActions,
            DomainActionTypes::BroadcastPushNotification,
            DomainActionTypes::ProcessTransferDrip,
            DomainActionTypes::UpdateGenres,
        ]
    );
    router.register(DomainActionTypes::RedeemOnChain, 1);
    router.register(DomainActionTypes::UpdateGenres, 2);
    router.register(DomainActionTypes::SendEmail, 3);
    assert_eq!(
        router.missing_executors(),
        vec![
            DomainActionTypes::RegenerateDripActions,
            DomainActionTypes::BroadcastPushNotification,
            DomainActionTypes::ProcessTransferDrip,
        ]
    );
    router.register(DomainActionTypes::RegenerateDripActions, 4);
    router.register(DomainActionTypes::BroadcastPushNotification, 5);
    router.register(DomainActionTypes::ProcessTransferDrip, 6);
    assert!(router.missing_executors().is_empty());
}
