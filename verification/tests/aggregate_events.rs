use transfer_stats::aggregate::{
    AsyncAggregate, TransferAggregate, TransferCommand, TransferError, TransferEvent,
    TransferServices,
};

#[test]
fn test_save_transfer_yields_one_event() {
    let agg = TransferAggregate::new(7);
    let services = TransferServices;
    let command = TransferCommand::SaveTransfer {
        ts: 11,
        from: "A".to_string(),
        to: "B".to_string(),
        amount: 3,
        usd_price: 2,
    };
    let events = agg.handle_command(command, &services).unwrap();
    assert_eq!(
        events,
        vec![TransferEvent::TransferSaved {
            ts: 11,
            from: "A".to_string(),
            to: "B".to_string(),
            amount: 3,
            usd_price: 2,
        }]
    );
}

#[test]
fn test_zero_amount_transfer_is_rejected() {
    let agg = TransferAggregate::new(7);
    let services = TransferServices;
    let command = TransferCommand::SaveTransfer {
        ts: 11,
        from: "A".to_string(),
        to: "B".to_string(),
        amount: 0,
        usd_price: 2,
    };
    let err = agg.handle_command(command, &services).unwrap_err();
    assert_eq!(
        err,
        TransferError::InvalidTransferData("Amount must be positive".to_string())
    );
    assert_eq!(err.message(), "Amount must be positive");
}

#[test]
fn test_error_messages() {
    assert_eq!(
        TransferError::CommandNotImplemented.message(),
        "Command not implemented"
    );
    assert_eq!(TransferError::UnknownError.message(), "Unknown error occurred");
}

#[test]
fn test_apply_saved_transfer_appends() {
    let mut agg = TransferAggregate::new(1);
    agg.apply_event(TransferEvent::TransferSaved {
        ts: 5,
        from: "A".to_string(),
        to: "B".to_string(),
        amount: 9,
        usd_price: 4,
    });
    assert_eq!(agg.transfers.len(), 1);
    assert_eq!(agg.transfers[0].ts, 5);
    assert_eq!(agg.transfers[0].amount, 9);
    assert!(agg.user_stats.is_none());
}

#[test]
fn test_apply_stats_update_replaces_record() {
    let mut agg = TransferAggregate::new(1);
    agg.apply_event(TransferEvent::UserStatsUpdated {
        address: "A".to_string(),
        total_volume: 10,
        avg_buy_price: 2,
        avg_sell_price: 3,
        max_balance: 4,
        max_balance_1h: 1,
        max_balance_24h: 2,
        max_balance_7d: 3,
    });
    let stats = agg.user_stats.clone().unwrap();
    assert_eq!(stats.address, "A");
    assert_eq!(stats.total_volume, 10);
    assert!(agg.transfers.is_empty());
}

#[test]
fn test_trait_dispatch_matches_inherent_handling() {
    let mut agg = TransferAggregate::new(2);
    let services = TransferServices;
    let command = TransferCommand::SaveTransfer {
        ts: 1,
        from: "X".to_string(),
        to: "Y".to_string(),
        amount: 1,
        usd_price: 1,
    };
    let events = AsyncAggregate::handle(&agg, command, &services).unwrap();
    for event in events {
        assert_eq!(event.event_type(), "TransferSaved");
        assert_eq!(event.event_version(), "1.0");
        AsyncAggregate::apply(&mut agg, event);
    }
    assert_eq!(agg.transfers.len(), 1);
}
