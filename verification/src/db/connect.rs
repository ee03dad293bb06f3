//! Connecting to the database.

use vstd::prelude::*;

verus! {

/// How connecting has gone so far.
#[derive(Debug, Clone, Copy, PartialEq, Eq, Structural)]
pub enum ConnectEvent {
    /// It was not tried yet.
    Begun,
    /// The database refused.
    Refused,
    /// There is a connection.
    Connected,
    /// The migrations were run.
    Migrated,
    /// The migrations could not be run.
    MigrationFailed,
}

/// What is to be done next.
#[derive(Debug, Clone, Copy, PartialEq, Eq, Structural)]
pub enum ConnectAction {
    /// Try to connect after a number of seconds.
    Connect(u64),
    /// Run the migrations.
    Migrate,
    /// Nothing: the connection is ready.
    Finish,
    /// End the process with a status.
    Exit(i32),
}

/// Connects to the database, once a second until it does not refuse, and then runs
/// the migrations where they are asked for. The process ends where they fail.
pub fn pg_connect(event: ConnectEvent, run_migrations: bool) -> (r: ConnectAction)
    ensures
        r == match event {
            ConnectEvent::Begun => ConnectAction::Connect(0),
            ConnectEvent::Refused => ConnectAction::Connect(1),
            ConnectEvent::Connected => if run_migrations {
                ConnectAction::Migrate
            } else {
                ConnectAction::Finish
            },
            ConnectEvent::Migrated => ConnectAction::Finish,
            ConnectEvent::MigrationFailed => ConnectAction::Exit(1),
        },
{
    match event {
        ConnectEvent::Begun => ConnectAction::Connect(0),
        ConnectEvent::Refused => ConnectAction::Connect(1),
        ConnectEvent::Connected => {
            if run_migrations {
                ConnectAction::Migrate
            } else {
                ConnectAction::Finish
            }
        },
        ConnectEvent::Migrated => ConnectAction::Finish,
        ConnectEvent::MigrationFailed => ConnectAction::Exit(1),
    }
}

} // verus!
