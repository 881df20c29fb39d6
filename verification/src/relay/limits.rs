//! Storage admission, and the limits of a running relay.
use vstd::prelude::*;
use crate::arithmetic::{saturated, saturated_product};
use crate::delivery::MAX_PAYLOAD;
use crate::ids::UserId;
use crate::protocol::encode_message;
use crate::relay::state::RelayTables;
use crate::relay::tables::{charged, Defect, RelayView, StorageError};
use crate::requests::{Request, RequestView};
use crate::text::{parse_number, parsed_number};
use crate::wire::Wire;

verus! {

/// How much may be stored, and how much space recovery keeps for itself.
#[derive(Clone, Copy, Debug, PartialEq, Eq, Structural)]
pub struct StorageLimits {
    pub global: u64,
    pub sender: u64,
    pub room: u64,
    pub reserve: u64,
}

impl Default for StorageLimits {
    fn default() -> (limits: StorageLimits)
        ensures
            limits == default_storage_limits(),
    {
        StorageLimits {
            global: 1024 * 1024 * 1024,
            sender: 100 * 1024 * 1024,
            room: 100 * 1024 * 1024,
            reserve: 64 * 1024 * 1024,
        }
    }
}

/// The limits where none are configured.
pub open spec fn default_storage_limits() -> StorageLimits {
    StorageLimits {
        global: 0x4000_0000,
        sender: 0x640_0000,
        room: 0x640_0000,
        reserve: 0x400_0000,
    }
}

/// What the system says of the database file.
#[derive(Clone, Copy, Debug)]
pub struct StorageFacts {
    pub page_size: u64,
    pub page_count: u64,
    /// The size of the write-ahead log, zero where there is none.
    pub wal: Result<u64, StorageError>,
    /// The free bytes of the file system.
    pub available: Result<u128, StorageError>,
}

/// What storing a request of so many bytes is charged: rows, indexes, the kept
/// answer and the copy for a new member.
pub open spec fn charge(bytes: nat) -> nat {
    3 * bytes + 16 * 1024
}

/// Whether a request may be stored.
pub open spec fn admission(
    limits: StorageLimits,
    view: RelayView,
    facts: StorageFacts,
    user: UserId,
    request: RequestView,
) -> Result<bool, StorageError> {
    let required = charge(Request::encoded(request).len());
    let logical = saturated(facts.page_size * facts.page_count);
    if Request::encoded(request).len() > MAX_PAYLOAD {
        Err(StorageError::InvalidStoredData(Defect::UnencodableRequest))
    } else if saturated(logical + required) > limits.global {
        Ok(false)
    } else {
        match facts.wal {
            Err(error) => Err(error),
            Ok(wal) => if saturated(saturated(logical + wal) + required) > saturated(
                limits.global + limits.reserve,
            ) {
                Ok(false)
            } else if saturated(charged(view.sender_usage, user) + required) > limits.sender {
                Ok(false)
            } else if request matches RequestView::AppendRoomOperation(operation) && saturated(
                charged(view.room_usage, operation.room) + required,
            ) > limits.room {
                Ok(false)
            } else {
                match facts.available {
                    Err(error) => Err(error),
                    Ok(available) => Ok(available >= saturated(limits.reserve + required)),
                }
            },
        }
    }
}

impl StorageLimits {
    /// The limits that texts configure.
    pub open spec fn configured(
        global: Option<Seq<char>>,
        sender: Option<Seq<char>>,
        room: Option<Seq<char>>,
        reserve: Option<Seq<char>>,
    ) -> Result<StorageLimits, StorageError> {
        let defaults = default_storage_limits();
        match (
            configured_number(global, u64::MAX, defaults.global),
            configured_number(sender, u64::MAX, defaults.sender),
            configured_number(room, u64::MAX, defaults.room),
            configured_number(reserve, u64::MAX, defaults.reserve),
        ) {
            (Some(global), Some(sender), Some(room), Some(reserve)) => Ok(
                StorageLimits { global, sender, room, reserve },
            ),
            _ => Err(StorageError::InvalidStoredData(Defect::StorageLimit)),
        }
    }

    /// The limits from the texts of the environment, where there are any.
    pub fn environment(
        global: &Option<String>,
        sender: &Option<String>,
        room: &Option<String>,
        reserve: &Option<String>,
    ) -> (result: Result<StorageLimits, StorageError>)
        ensures
            result == StorageLimits::configured(
                global.deep_view(),
                sender.deep_view(),
                room.deep_view(),
                reserve.deep_view(),
            ),
    {
        let defaults = StorageLimits::default();
        match (
            read_number(global, u64::MAX, defaults.global),
            read_number(sender, u64::MAX, defaults.sender),
            read_number(room, u64::MAX, defaults.room),
            read_number(reserve, u64::MAX, defaults.reserve),
        ) {
            (Some(global), Some(sender), Some(room), Some(reserve)) => Ok(
                StorageLimits { global, sender, room, reserve },
            ),
            _ => Err(StorageError::InvalidStoredData(Defect::StorageLimit)),
        }
    }

    /// Whether a request may be stored.
    pub fn admits(
        &self,
        tables: &RelayTables,
        facts: &StorageFacts,
        user: UserId,
        request: &Request,
    ) -> (result: Result<bool, StorageError>)
        ensures
            result == admission(*self, tables@, *facts, user, request.deep_view()),
    {
        let bytes = match encode_message(request) {
            Ok(bytes) => bytes,
            Err(_) => {
                return Err(StorageError::InvalidStoredData(Defect::UnencodableRequest));
            },
        };
        let required = charge_for(bytes.len());
        let logical = saturated_product(facts.page_size, facts.page_count);
        if logical.saturating_add(required) > self.global {
            return Ok(false);
        }
        let wal = match facts.wal {
            Ok(wal) => wal,
            Err(error) => return Err(error),
        };
        if logical.saturating_add(wal).saturating_add(required) > self.global.saturating_add(
            self.reserve,
        ) {
            return Ok(false);
        }
        if tables.sender_charge(user).saturating_add(required) > self.sender {
            return Ok(false);
        }
        if let Request::AppendRoomOperation(operation) = request {
            if tables.room_charge(operation.room).saturating_add(required) > self.room {
                return Ok(false);
            }
        }
        match facts.available {
            Ok(available) => Ok(available >= self.reserve.saturating_add(required) as u128),
            Err(error) => Err(error),
        }
    }
}

/// What storing a request of so many bytes is charged.
pub fn charge_for(bytes: usize) -> (required: u64)
    requires
        bytes <= MAX_PAYLOAD,
    ensures
        required == charge(bytes as nat),
{
    bytes as u64 * 3 + 16 * 1024
}

/// A number from a text, or the default where there is no text.
pub open spec fn configured_number(text: Option<Seq<char>>, max: u64, default: u64) -> Option<u64> {
    match text {
        Some(text) => match parsed_number(text, max as nat) {
            Some(number) => Some(number as u64),
            None => None,
        },
        None => Some(default),
    }
}

fn read_number(text: &Option<String>, max: u64, default: u64) -> (number: Option<u64>)
    ensures
        number == configured_number(text.deep_view(), max, default),
{
    match text {
        Some(text) => parse_number(text.as_str(), max),
        None => Some(default),
    }
}

/// The limits of a running relay.
#[derive(Clone, Copy, Debug, PartialEq, Eq, Structural)]
pub struct RuntimeLimits {
    pub connections: usize,
    pub handshakes: usize,
    pub handshakes_per_ip: usize,
    pub database_queue: usize,
    pub handshake_seconds: u64,
    pub frame_seconds: u64,
    pub write_seconds: u64,
    pub requests_per_second: usize,
    pub request_burst: usize,
    pub payload_bytes: usize,
}

/// The limits where none are configured.
pub open spec fn default_runtime_limits() -> RuntimeLimits {
    RuntimeLimits {
        connections: 128,
        handshakes: 16,
        handshakes_per_ip: 4,
        database_queue: 128,
        handshake_seconds: 10,
        frame_seconds: 15,
        write_seconds: 10,
        requests_per_second: 20,
        request_burst: 40,
        payload_bytes: 0x400_0000,
    }
}

impl Default for RuntimeLimits {
    fn default() -> (limits: RuntimeLimits)
        ensures
            limits == default_runtime_limits(),
    {
        RuntimeLimits {
            connections: 128,
            handshakes: 16,
            handshakes_per_ip: 4,
            database_queue: 128,
            handshake_seconds: 10,
            frame_seconds: 15,
            write_seconds: 10,
            requests_per_second: 20,
            request_burst: 40,
            payload_bytes: 64 * 1024 * 1024,
        }
    }
}

/// The limits that are in force: those that were set, or else the defaults,
/// which are then set.
pub fn runtime(limits: &mut Option<RuntimeLimits>) -> (current: RuntimeLimits)
    ensures
        current == (match *old(limits) {
            Some(set) => set,
            None => default_runtime_limits(),
        }),
        *final(limits) == Some(current),
{
    let current = match *limits {
        Some(set) => set,
        None => RuntimeLimits::default(),
    };
    *limits = Some(current);
    current
}

/// The texts that configure the limits.
pub struct RuntimeTexts {
    pub connections: Option<String>,
    pub handshakes: Option<String>,
    pub handshakes_per_ip: Option<String>,
    pub database_queue: Option<String>,
    pub requests_per_second: Option<String>,
    pub request_burst: Option<String>,
    pub payload_bytes: Option<String>,
    pub handshake_seconds: Option<String>,
    pub frame_seconds: Option<String>,
    pub write_seconds: Option<String>,
}

/// A count: a number from one to the largest 32-bit number.
pub open spec fn configured_count(text: Option<Seq<char>>, default: usize) -> Result<
    usize,
    StorageError,
> {
    match configured_number(text, usize::MAX as u64, default as u64) {
        None => Err(StorageError::InvalidStoredData(Defect::RuntimeLimit)),
        Some(value) => if value == 0 || value > u32::MAX {
            Err(StorageError::InvalidStoredData(Defect::RuntimeRange))
        } else {
            Ok(value as usize)
        },
    }
}

fn read_count(text: &Option<String>, default: usize) -> (result: Result<usize, StorageError>)
    ensures
        result == configured_count(text.deep_view(), default),
{
    match read_number(text, usize::MAX as u64, default as u64) {
        None => Err(StorageError::InvalidStoredData(Defect::RuntimeLimit)),
        Some(value) => if value == 0 || value > u32::MAX as u64 {
            Err(StorageError::InvalidStoredData(Defect::RuntimeRange))
        } else {
            Ok(value as usize)
        },
    }
}

/// A deadline: from one second to an hour.
pub open spec fn configured_deadline(text: Option<Seq<char>>, default: u64) -> Result<
    u64,
    StorageError,
> {
    match configured_number(text, u64::MAX, default) {
        None => Err(StorageError::InvalidStoredData(Defect::Deadline)),
        Some(value) => if value == 0 || value > 3600 {
            Err(StorageError::InvalidStoredData(Defect::DeadlineRange))
        } else {
            Ok(value)
        },
    }
}

fn read_deadline(text: &Option<String>, default: u64) -> (result: Result<u64, StorageError>)
    ensures
        result == configured_deadline(text.deep_view(), default),
{
    match read_number(text, u64::MAX, default) {
        None => Err(StorageError::InvalidStoredData(Defect::Deadline)),
        Some(value) => if value == 0 || value > 3600 {
            Err(StorageError::InvalidStoredData(Defect::DeadlineRange))
        } else {
            Ok(value)
        },
    }
}

/// The limits that the texts configure, or the first error in the order of the
/// texts.
pub open spec fn configured_runtime(texts: RuntimeTexts) -> Result<RuntimeLimits, StorageError> {
    let defaults = default_runtime_limits();
    match configured_count(texts.connections.deep_view(), defaults.connections) {
        Err(error) => Err(error),
        Ok(connections) => match configured_count(
            texts.handshakes.deep_view(),
            defaults.handshakes,
        ) {
            Err(error) => Err(error),
            Ok(handshakes) => match configured_count(
                texts.handshakes_per_ip.deep_view(),
                defaults.handshakes_per_ip,
            ) {
                Err(error) => Err(error),
                Ok(handshakes_per_ip) => match configured_count(
                    texts.database_queue.deep_view(),
                    defaults.database_queue,
                ) {
                    Err(error) => Err(error),
                    Ok(database_queue) => configured_traffic(
                        texts,
                        RuntimeLimits {
                            connections,
                            handshakes,
                            handshakes_per_ip,
                            database_queue,
                            ..defaults
                        },
                    ),
                },
            },
        },
    }
}

/// The same, from the requests per second on.
pub open spec fn configured_traffic(texts: RuntimeTexts, limits: RuntimeLimits) -> Result<
    RuntimeLimits,
    StorageError,
> {
    match configured_count(texts.requests_per_second.deep_view(), limits.requests_per_second) {
        Err(error) => Err(error),
        Ok(requests_per_second) => match configured_count(
            texts.request_burst.deep_view(),
            limits.request_burst,
        ) {
            Err(error) => Err(error),
            Ok(request_burst) => match configured_count(
                texts.payload_bytes.deep_view(),
                limits.payload_bytes,
            ) {
                Err(error) => Err(error),
                Ok(payload_bytes) => configured_deadlines(
                    texts,
                    RuntimeLimits { requests_per_second, request_burst, payload_bytes, ..limits },
                ),
            },
        },
    }
}

/// The same, from the deadlines on.
pub open spec fn configured_deadlines(texts: RuntimeTexts, limits: RuntimeLimits) -> Result<
    RuntimeLimits,
    StorageError,
> {
    match configured_deadline(texts.handshake_seconds.deep_view(), limits.handshake_seconds) {
        Err(error) => Err(error),
        Ok(handshake_seconds) => match configured_deadline(
            texts.frame_seconds.deep_view(),
            limits.frame_seconds,
        ) {
            Err(error) => Err(error),
            Ok(frame_seconds) => match configured_deadline(
                texts.write_seconds.deep_view(),
                limits.write_seconds,
            ) {
                Err(error) => Err(error),
                Ok(write_seconds) => if limits.payload_bytes < 2 * 1024 * 1024 {
                    Err(StorageError::InvalidStoredData(Defect::PayloadBudget))
                } else {
                    Ok(
                        RuntimeLimits {
                            handshake_seconds,
                            frame_seconds,
                            write_seconds,
                            ..limits
                        },
                    )
                },
            },
        },
    }
}

/// Sets the limits that the texts configure, unless limits are in force already.
pub fn configure(limits: &mut Option<RuntimeLimits>, texts: &RuntimeTexts) -> (result: Result<
    (),
    StorageError,
>)
    ensures
        match configured_runtime(*texts) {
            Ok(configured) => result is Ok && *final(limits) == (match *old(limits) {
                Some(set) => Some(set),
                None => Some(configured),
            }),
            Err(error) => result == Err::<(), StorageError>(error) && *final(limits) == *old(limits),
        },
{
    let mut config = RuntimeLimits::default();
    match read_count(&texts.connections, config.connections) {
        Ok(value) => {
            config.connections = value;
        },
        Err(error) => return Err(error),
    }
    match read_count(&texts.handshakes, config.handshakes) {
        Ok(value) => {
            config.handshakes = value;
        },
        Err(error) => return Err(error),
    }
    match read_count(&texts.handshakes_per_ip, config.handshakes_per_ip) {
        Ok(value) => {
            config.handshakes_per_ip = value;
        },
        Err(error) => return Err(error),
    }
    match read_count(&texts.database_queue, config.database_queue) {
        Ok(value) => {
            config.database_queue = value;
        },
        Err(error) => return Err(error),
    }
    match read_count(&texts.requests_per_second, config.requests_per_second) {
        Ok(value) => {
            config.requests_per_second = value;
        },
        Err(error) => return Err(error),
    }
    match read_count(&texts.request_burst, config.request_burst) {
        Ok(value) => {
            config.request_burst = value;
        },
        Err(error) => return Err(error),
    }
    match read_count(&texts.payload_bytes, config.payload_bytes) {
        Ok(value) => {
            config.payload_bytes = value;
        },
        Err(error) => return Err(error),
    }
    match read_deadline(&texts.handshake_seconds, config.handshake_seconds) {
        Ok(value) => {
            config.handshake_seconds = value;
        },
        Err(error) => return Err(error),
    }
    match read_deadline(&texts.frame_seconds, config.frame_seconds) {
        Ok(value) => {
            config.frame_seconds = value;
        },
        Err(error) => return Err(error),
    }
    match read_deadline(&texts.write_seconds, config.write_seconds) {
        Ok(value) => {
            config.write_seconds = value;
        },
        Err(error) => return Err(error),
    }
    if config.payload_bytes < 2 * 1024 * 1024 {
        return Err(StorageError::InvalidStoredData(Defect::PayloadBudget));
    }
    if limits.is_none() {
        *limits = Some(config);
    }
    Ok(())
}

/// With no texts the limits are the defaults.
pub proof fn unconfigured_runtime(texts: RuntimeTexts)
    requires
        texts.connections is None,
        texts.handshakes is None,
        texts.handshakes_per_ip is None,
        texts.database_queue is None,
        texts.requests_per_second is None,
        texts.request_burst is None,
        texts.payload_bytes is None,
        texts.handshake_seconds is None,
        texts.frame_seconds is None,
        texts.write_seconds is None,
    ensures
        configured_runtime(texts) == Ok::<RuntimeLimits, StorageError>(default_runtime_limits()),
{
}

} // verus!
