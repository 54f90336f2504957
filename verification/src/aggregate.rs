//! The transfer aggregate: commands decided into domain events, events
//! applied to evolve the aggregate's state.
//!
//! Handling is pure — a command either yields exactly one event or is
//! rejected — and applying an event either appends a transfer to the
//! aggregate's list or replaces its statistics record.

use vstd::prelude::*;

verus! {

/// A domain event of the transfer store.
#[derive(Clone, Debug, PartialEq)]
pub enum TransferEvent {
    TransferSaved { ts: u64, from: String, to: String, amount: u64, usd_price: u64 },
    UserStatsUpdated {
        address: String,
        total_volume: u128,
        avg_buy_price: u128,
        avg_sell_price: u128,
        max_balance: i128,
        max_balance_1h: i128,
        max_balance_24h: i128,
        max_balance_7d: i128,
    },
}

impl TransferEvent {
    /// The tag under which the event is persisted.
    pub fn event_type(&self) -> (r: String)
        ensures
            (*self matches TransferEvent::TransferSaved { .. }) ==> r@ == "TransferSaved"@,
            (*self matches TransferEvent::UserStatsUpdated { .. }) ==> r@
                == "UserStatsUpdated"@,
    {
        match self {
            TransferEvent::TransferSaved { .. } => "TransferSaved".to_owned(),
            TransferEvent::UserStatsUpdated { .. } => "UserStatsUpdated".to_owned(),
        }
    }

    /// The schema version of the event payload.
    pub fn event_version(&self) -> (r: String)
        ensures
            r@ == "1.0"@,
    {
        "1.0".to_owned()
    }
}

/// A command sent to the transfer aggregate.
#[derive(Clone, Debug, PartialEq)]
pub enum TransferCommand {
    SaveTransfer { ts: u64, from: String, to: String, amount: u64, usd_price: u64 },
    UpdateUserStats {
        address: String,
        total_volume: u128,
        avg_buy_price: u128,
        avg_sell_price: u128,
        max_balance: i128,
        max_balance_1h: i128,
        max_balance_24h: i128,
        max_balance_7d: i128,
    },
}

/// Why a command was rejected.
#[derive(Clone, Debug, PartialEq)]
pub enum TransferError {
    CommandNotImplemented,
    InvalidTransferData(String),
    UnknownError,
}

impl TransferError {
    /// A human-readable description of the rejection.
    pub fn message(&self) -> (r: String)
        ensures
            (*self matches TransferError::CommandNotImplemented) ==> r@
                == "Command not implemented"@,
            *self matches TransferError::InvalidTransferData(m) ==> r == m,
            (*self matches TransferError::UnknownError) ==> r@ == "Unknown error occurred"@,
    {
        match self {
            TransferError::CommandNotImplemented => "Command not implemented".to_owned(),
            TransferError::InvalidTransferData(m) => m.clone(),
            TransferError::UnknownError => "Unknown error occurred".to_owned(),
        }
    }
}

/// Collaborators a command handler may consult; deciding transfer
/// commands needs none.
#[derive(Clone, Debug, Default)]
pub struct TransferServices;

/// One transfer held by the aggregate.
#[derive(Clone, Debug, PartialEq)]
pub struct TransferData {
    pub ts: u64,
    pub from: String,
    pub to: String,
    pub amount: u64,
    pub usd_price: u64,
}

/// The statistics record held by the aggregate.
#[derive(Clone, Debug, PartialEq)]
pub struct UserStatsData {
    pub address: String,
    pub total_volume: u128,
    pub avg_buy_price: u128,
    pub avg_sell_price: u128,
    pub max_balance: i128,
    pub max_balance_1h: i128,
    pub max_balance_24h: i128,
    pub max_balance_7d: i128,
}

/// The event-sourced aggregate: an identifier, the transfers saved so
/// far, and the latest statistics record, if any.
#[derive(Clone, Debug)]
pub struct TransferAggregate {
    pub id: u128,
    pub transfers: Vec<TransferData>,
    pub user_stats: Option<UserStatsData>,
}

/// An aggregate shape: commands are decided into events, events evolve
/// the state. Implementors state what their handling decides.
pub trait AsyncAggregate {
    type Command;
    type Event;
    type Error;
    type Services;

    fn handle(&self, command: Self::Command, services: &Self::Services) -> Result<
        Vec<Self::Event>,
        Self::Error,
    >;

    fn apply(&mut self, event: Self::Event);
}

impl TransferAggregate {
    /// A fresh aggregate under the given identifier: no transfers, no
    /// statistics.
    pub fn new(id: u128) -> (s: Self)
        ensures
            s.id == id,
            s.transfers@.len() == 0,
            s.user_stats is None,
    {
        TransferAggregate { id, transfers: Vec::new(), user_stats: None }
    }

    /// Decides a command. Saving a transfer demands a positive amount
    /// and yields exactly one `TransferSaved` event; a statistics update
    /// always yields exactly one `UserStatsUpdated` event.
    pub fn handle_command(&self, command: TransferCommand, services: &TransferServices) -> (r:
        Result<Vec<TransferEvent>, TransferError>)
        ensures
            match command {
                TransferCommand::SaveTransfer { ts, from, to, amount, usd_price } => {
                    if amount == 0 {
                        r matches Err(TransferError::InvalidTransferData(m)) && m@
                            == "Amount must be positive"@
                    } else {
                        r matches Ok(evs) && evs@ =~= seq![
                            TransferEvent::TransferSaved { ts, from, to, amount, usd_price },
                        ]
                    }
                },
                TransferCommand::UpdateUserStats {
                    address,
                    total_volume,
                    avg_buy_price,
                    avg_sell_price,
                    max_balance,
                    max_balance_1h,
                    max_balance_24h,
                    max_balance_7d,
                } => {
                    r matches Ok(evs) && evs@ =~= seq![
                        TransferEvent::UserStatsUpdated {
                            address,
                            total_volume,
                            avg_buy_price,
                            avg_sell_price,
                            max_balance,
                            max_balance_1h,
                            max_balance_24h,
                            max_balance_7d,
                        },
                    ]
                },
            },
    {
        match command {
            TransferCommand::SaveTransfer { ts, from, to, amount, usd_price } => {
                if amount == 0 {
                    return Err(
                        TransferError::InvalidTransferData("Amount must be positive".to_owned()),
                    );
                }
                let mut evs: Vec<TransferEvent> = Vec::new();
                evs.push(TransferEvent::TransferSaved { ts, from, to, amount, usd_price });
                Ok(evs)
            },
            TransferCommand::UpdateUserStats {
                address,
                total_volume,
                avg_buy_price,
                avg_sell_price,
                max_balance,
                max_balance_1h,
                max_balance_24h,
                max_balance_7d,
            } => {
                let mut evs: Vec<TransferEvent> = Vec::new();
                evs.push(
                    TransferEvent::UserStatsUpdated {
                        address,
                        total_volume,
                        avg_buy_price,
                        avg_sell_price,
                        max_balance,
                        max_balance_1h,
                        max_balance_24h,
                        max_balance_7d,
                    },
                );
                Ok(evs)
            },
        }
    }

    /// Applies an event: a saved transfer is appended to the aggregate's
    /// list; a statistics update replaces the statistics record. The
    /// identifier never changes.
    pub fn apply_event(&mut self, event: TransferEvent)
        ensures
            final(self).id == old(self).id,
            match event {
                TransferEvent::TransferSaved { ts, from, to, amount, usd_price } => {
                    &&& final(self).transfers@ =~= old(self).transfers@.push(
                        TransferData { ts, from, to, amount, usd_price },
                    )
                    &&& final(self).user_stats == old(self).user_stats
                },
                TransferEvent::UserStatsUpdated {
                    address,
                    total_volume,
                    avg_buy_price,
                    avg_sell_price,
                    max_balance,
                    max_balance_1h,
                    max_balance_24h,
                    max_balance_7d,
                } => {
                    &&& final(self).user_stats == Some(
                        UserStatsData {
                            address,
                            total_volume,
                            avg_buy_price,
                            avg_sell_price,
                            max_balance,
                            max_balance_1h,
                            max_balance_24h,
                            max_balance_7d,
                        },
                    )
                    &&& final(self).transfers == old(self).transfers
                },
            },
    {
        match event {
            TransferEvent::TransferSaved { ts, from, to, amount, usd_price } => {
                self.transfers.push(TransferData { ts, from, to, amount, usd_price });
            },
            TransferEvent::UserStatsUpdated {
                address,
                total_volume,
                avg_buy_price,
                avg_sell_price,
                max_balance,
                max_balance_1h,
                max_balance_24h,
                max_balance_7d,
            } => {
                self.user_stats = Some(
                    UserStatsData {
                        address,
                        total_volume,
                        avg_buy_price,
                        avg_sell_price,
                        max_balance,
                        max_balance_1h,
                        max_balance_24h,
                        max_balance_7d,
                    },
                );
            },
        }
    }
}

impl AsyncAggregate for TransferAggregate {
    type Command = TransferCommand;

    type Event = TransferEvent;

    type Error = TransferError;

    type Services = TransferServices;

    fn handle(&self, command: TransferCommand, services: &TransferServices) -> Result<
        Vec<TransferEvent>,
        TransferError,
    > {
        self.handle_command(command, services)
    }

    fn apply(&mut self, event: TransferEvent) {
        self.apply_event(event);
    }
}

} // verus!
