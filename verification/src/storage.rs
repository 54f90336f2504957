//! Handles on the statistics store.
//!
//! Saving and loading transfers and statistics is plain network I/O and
//! lives outside the verified library; what stands here are the handle
//! types that carry the database client, so that callers can build them
//! and thread them through. The client itself is opaque to the verifier.

use vstd::prelude::*;

verus! {

/// Declares `clickhouse::Client` so that it may appear in signatures
/// and fields; the verifier treats its values as opaque.
#[verifier::external_type_specification]
#[verifier::external_body]
pub struct ExClient(clickhouse::Client);

/// Writes computed statistics to the store.
pub struct ClickHouseSaveStatsCommand {
    client: clickhouse::Client,
}

impl ClickHouseSaveStatsCommand {
    pub fn new(client: clickhouse::Client) -> Self {
        Self { client }
    }

    pub fn client(&self) -> &clickhouse::Client {
        &self.client
    }
}

/// Writes a transfer batch to the store.
pub struct ClickHouseSaveTransfersCommand {
    client: clickhouse::Client,
}

impl ClickHouseSaveTransfersCommand {
    pub fn new(client: clickhouse::Client) -> Self {
        Self { client }
    }

    pub fn client(&self) -> &clickhouse::Client {
        &self.client
    }
}

/// Reads statistics back from the store.
pub struct ClickHouseGetStatsQuery {
    client: clickhouse::Client,
}

impl ClickHouseGetStatsQuery {
    pub fn new(client: clickhouse::Client) -> Self {
        Self { client }
    }

    pub fn client(&self) -> &clickhouse::Client {
        &self.client
    }
}

/// Reads the per-address statistics projection from the store.
pub struct ClickHouseUserStatsProjection {
    client: clickhouse::Client,
}

impl ClickHouseUserStatsProjection {
    pub fn new(client: clickhouse::Client) -> Self {
        Self { client }
    }

    pub fn client(&self) -> &clickhouse::Client {
        &self.client
    }
}

/// Appends domain events to the store.
pub struct ClickHouseEventStore {
    client: clickhouse::Client,
}

impl ClickHouseEventStore {
    pub fn new(client: clickhouse::Client) -> Self {
        Self { client }
    }

    pub fn client(&self) -> &clickhouse::Client {
        &self.client
    }
}

} // verus!
