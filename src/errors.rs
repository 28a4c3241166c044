use vstd::prelude::*;

verus! {

/// Why an operation on the device failed.
#[derive(Debug, Clone)]
pub enum ModbusError {
    /// The device answered the request with an exception reply (its code).
    Exception { code: u8 },
    /// The connection could not be opened.
    IOerror,
    /// The link failed during a request; `link_lost` when the peer is gone
    /// (broken pipe or reset connection).
    Transport { link_lost: bool },
    /// The reply could not be understood.
    Protocol,
    /// Words that do not have the width their type needs.
    ConversionError,
    /// A read or write was asked for before a connection was made.
    DeviceNotConnectedError,
    /// No register of that name in the catalog that was searched.
    RegisterDoesNotExistError { name: String },
}

/// The coarser errors of a generic device interface: a rejected request,
/// an unreachable device, a value that does not convert, a device that is
/// not connected, or an unknown register.
#[derive(Debug, Clone)]
pub enum DeviceError {
    RequestError { err: ModbusError },
    DeviceNotAccessibleError { err: ModbusError },
    ConversionError { err: ModbusError },
    DeviceNotConnectedError { err: ModbusError },
    RegisterNotFoundError { name: String },
}

/// The class that an error falls in: a lost link or a failed connection
/// makes the device unreachable; an exception reply, a malformed reply or
/// another transport failure is a rejected request.
pub open spec fn classify(e: ModbusError) -> DeviceError {
    match e {
        ModbusError::Exception { .. } => DeviceError::RequestError { err: e },
        ModbusError::IOerror => DeviceError::DeviceNotAccessibleError { err: e },
        ModbusError::Transport { link_lost } => if link_lost {
            DeviceError::DeviceNotAccessibleError { err: e }
        } else {
            DeviceError::RequestError { err: e }
        },
        ModbusError::Protocol => DeviceError::RequestError { err: e },
        ModbusError::ConversionError => DeviceError::ConversionError { err: e },
        ModbusError::DeviceNotConnectedError => DeviceError::DeviceNotConnectedError { err: e },
        ModbusError::RegisterDoesNotExistError { name } => DeviceError::RegisterNotFoundError { name },
    }
}

impl From<ModbusError> for DeviceError {
    fn from(value: ModbusError) -> (r: DeviceError) {
        match value {
            ModbusError::Exception { .. } => DeviceError::RequestError { err: value },
            ModbusError::IOerror => DeviceError::DeviceNotAccessibleError { err: value },
            ModbusError::Transport { link_lost } => if link_lost {
                DeviceError::DeviceNotAccessibleError { err: value }
            } else {
                DeviceError::RequestError { err: value }
            },
            ModbusError::Protocol => DeviceError::RequestError { err: value },
            ModbusError::ConversionError => DeviceError::ConversionError { err: value },
            ModbusError::DeviceNotConnectedError => DeviceError::DeviceNotConnectedError { err: value },
            ModbusError::RegisterDoesNotExistError { name } => DeviceError::RegisterNotFoundError { name },
        }
    }
}

impl vstd::std_specs::convert::FromSpecImpl<ModbusError> for DeviceError {
    open spec fn obeys_from_spec() -> bool {
        true
    }

    open spec fn from_spec(v: ModbusError) -> DeviceError {
        classify(v)
    }
}

} // verus!
