use vstd::prelude::*;

use crate::batch::BatchRead;
use crate::catalog::{is_readable, lookup, RegisterMap};
use crate::codec::{encode, spec_encode};
use crate::errors::ModbusError;
use crate::register::{ModBusRegisters, Register};
use crate::types::RegisterValue;

verus! {

/// State of the link to the device: none yet, or open through `H`.
#[derive(Debug)]
pub enum Connection<H> {
    Disconnected,
    Connected(H),
}

/// A read the transport is to make: `nb` words from `addr` of `source`.
#[derive(Debug, Clone, Copy, PartialEq, Eq, Structural)]
pub struct RawRead {
    pub source: ModBusRegisters,
    pub addr: u16,
    pub nb: u16,
}

/// A write the transport is to make: `data` into the holding registers
/// from `addr` on.
#[derive(Debug, Clone)]
pub struct RawWrite {
    pub addr: u16,
    pub data: Vec<u16>,
}

/// The register found for `name` in `cat`, if any.
pub open spec fn resolved(cat: Seq<Register>) -> spec_fn(String) -> Option<Register> {
    |n: String| lookup(cat, n@)
}

/// `name` itself, if `cat` has no register of that name.
pub open spec fn unresolved(cat: Seq<Register>) -> spec_fn(String) -> Option<String> {
    |n: String|
        if lookup(cat, n@) is None {
            Some(n)
        } else {
            None
        }
}

/// The error for a name that no register has.
pub open spec fn is_not_found<T>(r: Result<T, ModbusError>, name: Seq<char>) -> bool {
    match r {
        Err(ModbusError::RegisterDoesNotExistError { name: n }) => n@ == name,
        _ => false,
    }
}

/// A device reached over a field bus: the transport settings `C`, the state
/// of the link, and the named registers of its two address spaces.
///
/// No read or write request is handed out while the link is not open.
#[derive(Debug)]
pub struct ModbusDeviceAsync<C, H> {
    pub device: C,
    pub ctx: Connection<H>,
    pub input_registers: RegisterMap,
    pub holding_registers: RegisterMap,
}

impl<C, H> ModbusDeviceAsync<C, H> {
    pub open spec fn wf(&self) -> bool {
        self.input_registers.wf() && self.holding_registers.wf()
    }

    /// The registers of one address space.
    pub open spec fn catalog(&self, source: ModBusRegisters) -> Seq<Register> {
        match source {
            ModBusRegisters::INPUT => self.input_registers@,
            ModBusRegisters::HOLDING => self.holding_registers@,
        }
    }

    /// A device with these registers, not connected yet.
    pub fn new(context: C, input_registers: RegisterMap, holding_registers: RegisterMap) -> (d: Self)
        requires
            input_registers.wf(),
            holding_registers.wf(),
        ensures
            d.wf(),
            d.device == context,
            d.ctx is Disconnected,
            d.catalog(ModBusRegisters::INPUT) == input_registers@,
            d.catalog(ModBusRegisters::HOLDING) == holding_registers@,
    {
        ModbusDeviceAsync {
            device: context,
            ctx: Connection::Disconnected,
            input_registers,
            holding_registers,
        }
    }

    /// Records that the link is open through `handle`, in place of any
    /// earlier one.
    pub fn attach(&mut self, handle: H)
        ensures
            final(self).ctx == Connection::Connected(handle),
            final(self).device == old(self).device,
            forall|s: ModBusRegisters| #[trigger] final(self).catalog(s) == old(self).catalog(s),
            final(self).wf() == old(self).wf(),
    {
        self.ctx = Connection::Connected(handle);
    }

    /// Whether the link is open.
    pub fn is_connected(&self) -> (r: bool)
        ensures
            r == (self.ctx is Connected),
    {
        match self.ctx {
            Connection::Connected(_) => true,
            Connection::Disconnected => false,
        }
    }

    /// The raw read of `nb` words from `addr` of `source`; refused with
    /// `DeviceNotConnectedError` while the link is not open.
    pub fn raw_read_request(&self, addr: u16, nb: u16, source: ModBusRegisters) -> (r: Result<RawRead, ModbusError>)
        ensures
            self.ctx is Disconnected ==> r == Err::<RawRead, ModbusError>(ModbusError::DeviceNotConnectedError),
            self.ctx is Connected ==> r == Ok::<RawRead, ModbusError>(RawRead { source, addr, nb }),
    {
        if self.is_connected() {
            Ok(RawRead { source, addr, nb })
        } else {
            Err(ModbusError::DeviceNotConnectedError)
        }
    }

    /// The raw write of `data` into the holding registers from `addr` on;
    /// refused with `DeviceNotConnectedError` while the link is not open.
    pub fn raw_write_request(&self, addr: u16, data: Vec<u16>) -> (r: Result<RawWrite, ModbusError>)
        ensures
            self.ctx is Disconnected ==> r == Err::<RawWrite, ModbusError>(ModbusError::DeviceNotConnectedError),
            self.ctx is Connected ==> r == Ok::<RawWrite, ModbusError>(RawWrite { addr, data }),
    {
        if self.is_connected() {
            Ok(RawWrite { addr, data })
        } else {
            Err(ModbusError::DeviceNotConnectedError)
        }
    }

    fn catalog_get(&self, source: ModBusRegisters, name: &str) -> (r: Option<Register>)
        requires
            self.wf(),
        ensures
            r == lookup(self.catalog(source), name@),
    {
        match source {
            ModBusRegisters::INPUT => self.input_registers.get(name),
            ModBusRegisters::HOLDING => self.holding_registers.get(name),
        }
    }

    /// The input register named `name`, if there is one.
    pub fn get_input_register_by_name(&self, name: &str) -> (r: Option<Register>)
        requires
            self.wf(),
        ensures
            r == lookup(self.catalog(ModBusRegisters::INPUT), name@),
    {
        self.input_registers.get(name)
    }

    /// The holding register named `name`, if there is one.
    pub fn get_holding_register_by_name(&self, name: &str) -> (r: Option<Register>)
        requires
            self.wf(),
        ensures
            r == lookup(self.catalog(ModBusRegisters::HOLDING), name@),
    {
        self.holding_registers.get(name)
    }

    /// The register named `name` and its address space. The input space is
    /// searched first: a name that both spaces have resolves to the input
    /// register.
    pub fn get_register_by_name(&self, name: &str) -> (r: Result<(Register, ModBusRegisters), ModbusError>)
        requires
            self.wf(),
        ensures
            ({
                let i = lookup(self.catalog(ModBusRegisters::INPUT), name@);
                let h = lookup(self.catalog(ModBusRegisters::HOLDING), name@);
                &&& i is Some ==> r == Ok::<(Register, ModBusRegisters), ModbusError>(
                    (i->Some_0, ModBusRegisters::INPUT),
                )
                &&& i is None && h is Some ==> r == Ok::<(Register, ModBusRegisters), ModbusError>(
                    (h->Some_0, ModBusRegisters::HOLDING),
                )
                &&& i is None && h is None ==> is_not_found(r, name@)
            }),
    {
        match self.get_input_register_by_name(name) {
            Some(reg) => Ok((reg, ModBusRegisters::INPUT)),
            None => match self.get_holding_register_by_name(name) {
                Some(reg) => Ok((reg, ModBusRegisters::HOLDING)),
                None => Err(ModbusError::RegisterDoesNotExistError { name: name.to_owned() }),
            },
        }
    }

    /// The write that stores `val` in `reg`: its encoding, from the
    /// register's address on.
    pub fn write_holding_register(&self, reg: &Register, val: &RegisterValue) -> (r: Result<RawWrite, ModbusError>)
        ensures
            self.ctx is Disconnected ==> r == Err::<RawWrite, ModbusError>(ModbusError::DeviceNotConnectedError),
            self.ctx is Connected ==> (r matches Ok(w) && w.addr == reg.addr && w.data@ == spec_encode(*val)),
    {
        let data = encode(val);
        self.raw_write_request(reg.addr, data)
    }

    /// The write that stores `val` in the holding register named `name`.
    /// A name that no holding register has gives `RegisterDoesNotExistError`,
    /// connected or not, and no write.
    pub fn write_holding_register_by_name(&self, name: &str, val: &RegisterValue) -> (r: Result<RawWrite, ModbusError>)
        requires
            self.wf(),
        ensures
            ({
                let h = lookup(self.catalog(ModBusRegisters::HOLDING), name@);
                &&& h is None ==> is_not_found(r, name@)
                &&& h is Some && self.ctx is Disconnected ==> r == Err::<RawWrite, ModbusError>(
                    ModbusError::DeviceNotConnectedError,
                )
                &&& h is Some && self.ctx is Connected ==> (r matches Ok(w) && w.addr
                    == h->Some_0.addr && w.data@ == spec_encode(*val))
            }),
    {
        match self.get_holding_register_by_name(name) {
            Some(reg) => self.write_holding_register(&reg, val),
            None => Err(ModbusError::RegisterDoesNotExistError { name: name.to_owned() }),
        }
    }

    /// A batch read of the registers named in `names` from `source`. Names
    /// that no register of `source` has are left out of the read and listed
    /// in the outcome's `unknown`.
    pub fn read_registers_by_name(&self, names: &Vec<String>, source: ModBusRegisters) -> (b: BatchRead)
        requires
            self.wf(),
        ensures
            b.wf(),
            b.space == source,
            b.registers@ == names@.filter_map(resolved(self.catalog(source))),
            b.outcome.unknown@ == names@.filter_map(unresolved(self.catalog(source))),
            b.next == 0,
            b.outcome.values@.len() == 0,
            b.outcome.skipped@.len() == 0,
    {
        let ghost cat = self.catalog(source);
        let mut regs: Vec<Register> = Vec::new();
        let mut unknown: Vec<String> = Vec::new();
        let mut i: usize = 0;
        while i < names.len()
            invariant
                self.wf(),
                cat == self.catalog(source),
                i <= names@.len(),
                regs@ == names@.take(i as int).filter_map(resolved(cat)),
                unknown@ == names@.take(i as int).filter_map(unresolved(cat)),
            decreases names@.len() - i,
        {
            proof {
                names@.lemma_filter_map_take_succ(resolved(cat), i as int);
                names@.lemma_filter_map_take_succ(unresolved(cat), i as int);
            }
            match self.catalog_get(source, names[i].as_str()) {
                Some(reg) => {
                    regs.push(reg);
                },
                None => {
                    unknown.push(names[i].clone());
                },
            }
            i = i + 1;
        }
        proof {
            assert(names@.take(i as int) =~= names@);
        }
        let mut b = BatchRead::new(regs, source);
        b.outcome.unknown = unknown;
        b
    }

    /// A batch read of every register of `source` that a dump reads.
    pub fn dump_registers(&self, source: ModBusRegisters) -> (b: BatchRead)
        requires
            self.wf(),
        ensures
            b.wf(),
            b.space == source,
            b.registers@ == self.catalog(source).filter(is_readable()),
            b.next == 0,
            b.outcome.values@.len() == 0,
            b.outcome.skipped@.len() == 0,
            b.outcome.unknown@.len() == 0,
    {
        let regs = match source {
            ModBusRegisters::INPUT => self.input_registers.readable(),
            ModBusRegisters::HOLDING => self.holding_registers.readable(),
        };
        BatchRead::new(regs, source)
    }

    /// A read of the single register `reg` from `source`.
    pub fn read_register(&self, reg: &Register, source: ModBusRegisters) -> (b: BatchRead)
        ensures
            b.wf(),
            b.space == source,
            b.registers@ == seq![*reg],
            b.next == 0,
            b.outcome.values@.len() == 0,
            b.outcome.skipped@.len() == 0,
            b.outcome.unknown@.len() == 0,
    {
        let regs = vec![reg.duplicate()];
        BatchRead::new(regs, source)
    }
}

} // verus!
