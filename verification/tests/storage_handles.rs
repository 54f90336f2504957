use transfer_stats::storage::{
    ClickHouseEventStore, ClickHouseGetStatsQuery, ClickHouseSaveStatsCommand,
    ClickHouseSaveTransfersCommand, ClickHouseUserStatsProjection,
};

#[test]
fn test_handles_carry_their_client() {
    let client = clickhouse::Client::default().with_url("http://localhost:8123");

    let save_stats = ClickHouseSaveStatsCommand::new(client.clone());
    let _ = save_stats.client();

    let save_transfers = ClickHouseSaveTransfersCommand::new(client.clone());
    let _ = save_transfers.client();

    let get_stats = ClickHouseGetStatsQuery::new(client.clone());
    let _ = get_stats.client();

    let projection = ClickHouseUserStatsProjection::new(client.clone());
    let _ = projection.client();

    let event_store = ClickHouseEventStore::new(client);
    let _ = event_store.client();
}
