//! Configuration records for the server: worker pools, queues, the SMTP
//! error budget and client timeouts, the application area, and the
//! connection manager of the database plugin. Durations are carried in
//! milliseconds, paths as plain strings.

use vstd::prelude::*;

verus! {

/// Threads of the three worker pools.
pub struct FieldServerSystemThreadPool {
    /// Accepts clients and runs the SMTP transaction.
    pub receiver: usize,
    /// Moves accepted mail from the working queue towards delivery.
    pub processing: usize,
    /// Sends mail to its recipients.
    pub delivery: usize,
}

impl FieldServerSystemThreadPool {
    /// The standard pool sizes.
    pub fn standard() -> (r: FieldServerSystemThreadPool)
        ensures
            r.receiver == 6,
            r.processing == 6,
            r.delivery == 6,
    {
        FieldServerSystemThreadPool { receiver: 6, processing: 6, delivery: 6 }
    }
}

/// The working queue's channel.
pub struct FieldQueueWorking {
    /// Entries the channel from the receiver pool to the processing pool
    /// can hold.
    pub channel_size: usize,
}

impl FieldQueueWorking {
    /// The standard channel size.
    pub fn standard() -> (r: FieldQueueWorking)
        ensures
            r.channel_size == 32,
    {
        FieldQueueWorking { channel_size: 32 }
    }
}

/// The delivery queue's channel and the deferred-retry policy.
pub struct FieldQueueDelivery {
    /// Entries the channel from the processing pool to the delivery pool
    /// can hold.
    pub channel_size: usize,
    /// Attempts before a deferred message is given up as dead.
    pub deferred_retry_max: u64,
    /// Milliseconds between two sweeps of the deferred queue.
    pub deferred_retry_period_ms: u64,
}

impl FieldQueueDelivery {
    /// The standard channel size and retry policy: the deferred queue is
    /// swept about every ten seconds.
    pub fn standard() -> (r: FieldQueueDelivery)
        ensures
            r.channel_size == 32,
            r.deferred_retry_max == 100,
            r.deferred_retry_period_ms == 10000,
    {
        FieldQueueDelivery {
            channel_size: 32,
            deferred_retry_max: 100,
            deferred_retry_period_ms: 10000,
        }
    }
}

/// Where the queues live and how their channels are sized.
pub struct FieldServerQueues {
    /// The root directory of the spool.
    pub dirpath: Vec<u8>,
    pub working: FieldQueueWorking,
    pub delivery: FieldQueueDelivery,
}

/// A secret loaded from a file, remembered together with its path.
pub struct SecretFile<T> {
    pub inner: T,
    pub path: Vec<u8>,
}

/// The client error budget.
pub struct FieldServerSMTPError {
    /// Errors before each further error reply is delayed; negative
    /// disables the delay.
    pub soft_count: i64,
    /// Errors before the connection is closed; negative disables the cap.
    pub hard_count: i64,
    /// Milliseconds each delayed reply waits.
    pub delay_ms: u64,
}

impl FieldServerSMTPError {
    /// The standard budget.
    pub fn standard() -> (r: FieldServerSMTPError)
        ensures
            r.soft_count == 10,
            r.hard_count == 20,
            r.delay_ms == 5000,
    {
        FieldServerSMTPError { soft_count: 10, hard_count: 20, delay_ms: 5000 }
    }
}

/// Per-stage client timeouts, in milliseconds.
pub struct FieldServerSMTPTimeoutClient {
    /// Between the connection and the first HELO or EHLO.
    pub connect_ms: u64,
    /// Between the last HELO or EHLO and MAIL FROM.
    pub helo_ms: u64,
    /// Between MAIL FROM and the next RCPT TO.
    pub mail_from_ms: u64,
    /// Between the last RCPT TO and DATA.
    pub rcpt_to_ms: u64,
    /// Between message chunks after DATA.
    pub data_ms: u64,
}

impl FieldServerSMTPTimeoutClient {
    /// The standard timeouts: five minutes at every stage.
    pub fn standard() -> (r: FieldServerSMTPTimeoutClient)
        ensures
            r.connect_ms == 300000,
            r.helo_ms == 300000,
            r.mail_from_ms == 300000,
            r.rcpt_to_ms == 300000,
            r.data_ms == 300000,
    {
        FieldServerSMTPTimeoutClient {
            connect_ms: 300000,
            helo_ms: 300000,
            mail_from_ms: 300000,
            rcpt_to_ms: 300000,
            data_ms: 300000,
        }
    }
}

/// Where the filter scripts live.
pub struct FieldAppVSL {
    /// Directory of per-domain rule scripts.
    pub domain_dir: Option<Vec<u8>>,
    /// Entry point of the root filter.
    pub filter_path: Option<Vec<u8>>,
}

/// The application log file.
pub struct FieldAppLogs {
    pub filename: Vec<u8>,
}

/// The application area: artifacts, scripts and logs.
pub struct FieldApp {
    /// Folder under which artifacts are stored.
    pub dirpath: Vec<u8>,
    pub vsl: FieldAppVSL,
    pub logs: FieldAppLogs,
}

/// Milliseconds before a database connection attempt is given up.
pub fn default_timeout() -> (r: u64)
    ensures
        r == 30000,
{
    30000
}

/// A connection manager for the database plugin: it remembers the database
/// path and opens connections to it on demand; the opening itself is the
/// driver's.
pub struct ConnectionManager {
    pub path: Vec<u8>,
}

impl ConnectionManager {
    /// A manager for the database at `path`.
    pub fn new(path: Vec<u8>) -> (r: ConnectionManager)
        ensures
            r.path@ == path@,
    {
        ConnectionManager { path }
    }
}

} // verus!
