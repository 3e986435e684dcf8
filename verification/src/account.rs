//! A small aggregate to run the store with: a bank account that is opened
//! with a balance and then takes deposits and withdrawals, and a query
//! processor that counts the events delivered to it.

use vstd::prelude::*;
use crate::aggregate::{Aggregate, DomainEvent};
use crate::event_log::EventEnvelope;
use crate::processor::{ProjectionError, QueryProcessor};

verus! {

#[derive(PartialEq, Eq, Structural, Clone, Copy, Debug)]
pub struct BankAccount {
    pub opened: bool,
    pub balance: u64,
}

#[derive(PartialEq, Eq, Structural, Clone, Copy, Debug)]
pub enum AccountCommand {
    Open { balance: u64 },
    Deposit { amount: u64 },
    Withdraw { amount: u64 },
}

#[derive(PartialEq, Eq, Structural, Clone, Copy, Debug)]
pub enum AccountEvent {
    Opened { balance: u64 },
    Deposited { amount: u64 },
    Withdrew { amount: u64 },
}

/// The bank's rules that apply to every account.
#[derive(PartialEq, Eq, Structural, Clone, Copy, Debug)]
pub struct AccountRules {
    /// The largest amount that one withdrawal may take.
    pub withdrawal_limit: u64,
}

#[derive(PartialEq, Eq, Structural, Clone, Copy, Debug)]
pub enum AccountError {
    /// The account was opened before.
    AlreadyOpen,
    /// The account has not been opened.
    NotOpen,
    /// The withdrawal is larger than the balance.
    InsufficientFunds,
    /// The withdrawal is larger than the bank allows.
    LimitExceeded,
    /// The deposit would take the balance beyond what it can hold.
    BalanceOverflow,
}

impl DomainEvent for AccountEvent {
    open spec fn type_tag(&self) -> Seq<char> {
        match self {
            AccountEvent::Opened { .. } => "Opened"@,
            AccountEvent::Deposited { .. } => "Deposited"@,
            AccountEvent::Withdrew { .. } => "Withdrew"@,
        }
    }

    fn event_type(&self) -> (tag: String) {
        match self {
            AccountEvent::Opened { .. } => "Opened".to_owned(),
            AccountEvent::Deposited { .. } => "Deposited".to_owned(),
            AccountEvent::Withdrew { .. } => "Withdrew".to_owned(),
        }
    }

    fn duplicate(&self) -> (copy: Self) {
        *self
    }
}

impl Aggregate for BankAccount {
    type Command = AccountCommand;

    type Event = AccountEvent;

    type Error = AccountError;

    type Services = AccountRules;

    open spec fn initial_state() -> Self {
        BankAccount { opened: false, balance: 0 }
    }

    open spec fn apply_event(self, event: AccountEvent) -> Self {
        match event {
            AccountEvent::Opened { balance } => BankAccount { opened: true, balance },
            AccountEvent::Deposited { amount } => BankAccount {
                opened: self.opened,
                balance: if self.balance + amount <= u64::MAX {
                    (self.balance + amount) as u64
                } else {
                    u64::MAX
                },
            },
            AccountEvent::Withdrew { amount } => BankAccount {
                opened: self.opened,
                balance: if amount <= self.balance {
                    (self.balance - amount) as u64
                } else {
                    0
                },
            },
        }
    }

    open spec fn decide(self, command: AccountCommand, services: AccountRules) -> Result<
        Seq<AccountEvent>,
        AccountError,
    > {
        match command {
            AccountCommand::Open { balance } => if self.opened {
                Err(AccountError::AlreadyOpen)
            } else {
                Ok(seq![AccountEvent::Opened { balance }])
            },
            AccountCommand::Deposit { amount } => if !self.opened {
                Err(AccountError::NotOpen)
            } else if self.balance + amount > u64::MAX {
                Err(AccountError::BalanceOverflow)
            } else {
                Ok(seq![AccountEvent::Deposited { amount }])
            },
            AccountCommand::Withdraw { amount } => if !self.opened {
                Err(AccountError::NotOpen)
            } else if amount > self.balance {
                Err(AccountError::InsufficientFunds)
            } else if amount > services.withdrawal_limit {
                Err(AccountError::LimitExceeded)
            } else {
                Ok(seq![AccountEvent::Withdrew { amount }])
            },
        }
    }

    fn initial() -> (state: Self) {
        BankAccount { opened: false, balance: 0 }
    }

    fn apply(&mut self, event: &AccountEvent) {
        match *event {
            AccountEvent::Opened { balance } => {
                self.opened = true;
                self.balance = balance;
            },
            AccountEvent::Deposited { amount } => {
                self.balance = self.balance.saturating_add(amount);
            },
            AccountEvent::Withdrew { amount } => {
                self.balance = self.balance.saturating_sub(amount);
            },
        }
    }

    fn handle(&self, command: &AccountCommand, services: &AccountRules) -> (outcome: Result<
        Vec<AccountEvent>,
        AccountError,
    >) {
        let produced = match *command {
            AccountCommand::Open { balance } => {
                if self.opened {
                    return Err(AccountError::AlreadyOpen);
                }
                AccountEvent::Opened { balance }
            },
            AccountCommand::Deposit { amount } => {
                if !self.opened {
                    return Err(AccountError::NotOpen);
                }
                if amount > u64::MAX - self.balance {
                    return Err(AccountError::BalanceOverflow);
                }
                AccountEvent::Deposited { amount }
            },
            AccountCommand::Withdraw { amount } => {
                if !self.opened {
                    return Err(AccountError::NotOpen);
                }
                if amount > self.balance {
                    return Err(AccountError::InsufficientFunds);
                }
                if amount > services.withdrawal_limit {
                    return Err(AccountError::LimitExceeded);
                }
                AccountEvent::Withdrew { amount }
            },
        };
        let mut events: Vec<AccountEvent> = Vec::new();
        events.push(produced);
        assert(events@ =~= seq![produced]);
        Ok(events)
    }

    fn duplicate(&self) -> (copy: Self) {
        *self
    }
}

/// A read model that counts the events delivered to it.
#[derive(PartialEq, Eq, Structural, Clone, Copy, Debug)]
pub struct DeliveryCount {
    pub events: usize,
}

impl QueryProcessor<AccountEvent> for DeliveryCount {
    open spec fn accepts(&self, batch: Seq<EventEnvelope<AccountEvent>>) -> bool {
        self.events + batch.len() <= usize::MAX
    }

    open spec fn projected(self, batch: Seq<EventEnvelope<AccountEvent>>) -> Self {
        if self.accepts(batch) {
            DeliveryCount { events: (self.events + batch.len()) as usize }
        } else {
            self
        }
    }

    fn apply(&mut self, batch: &Vec<EventEnvelope<AccountEvent>>) -> (outcome: Result<
        (),
        ProjectionError,
    >) {
        if batch.len() > usize::MAX - self.events {
            return Err(ProjectionError);
        }
        self.events = self.events + batch.len();
        Ok(())
    }
}

} // verus!
