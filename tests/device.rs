use modbus_device::catalog::RegisterMap;
use modbus_device::register::DataType;
use modbus_device::types::DataType as SchemaType;
use modbus_device::utils::{register_from_definition, return_true};
use modbus_device::{
    DeviceError, ModBusRegisters, ModbusDeviceAsync, ModbusError, RawRead, Register, RegisterValue,
};

fn reg(name: &str, addr: u16, len: u16, data_type: DataType, read: bool) -> Register {
    Register { name: name.to_string(), addr, len, data_type, read }
}

fn device() -> ModbusDeviceAsync<(), u8> {
    let inputs = RegisterMap::from_registers(vec![
        reg("ProjectId", 0, 2, DataType::UInt32, true),
        reg("Shared", 4, 1, DataType::UInt16, true),
        reg("Hidden", 6, 1, DataType::UInt16, false),
    ]);
    let holdings = RegisterMap::from_registers(vec![
        reg("Version", 10, 2, DataType::UInt32, true),
        reg("Shared", 20, 1, DataType::UInt16, true),
        reg("Rate", 30, 2, DataType::Float32, true),
    ]);
    ModbusDeviceAsync::new((), inputs, holdings)
}

#[test]
fn requests_refused_before_connect() {
    let d = device();
    assert!(!d.is_connected());
    assert!(matches!(d.raw_read_request(0, 2, ModBusRegisters::INPUT), Err(ModbusError::DeviceNotConnectedError)));
    assert!(matches!(d.raw_write_request(10, vec![1, 2]), Err(ModbusError::DeviceNotConnectedError)));
    let rate = d.get_holding_register_by_name("Rate").unwrap();
    assert!(matches!(
        d.write_holding_register(&rate, &RegisterValue::Float32(0.52f32.to_bits())),
        Err(ModbusError::DeviceNotConnectedError)
    ));
    assert!(matches!(
        d.write_holding_register_by_name("Rate", &RegisterValue::U32(1)),
        Err(ModbusError::DeviceNotConnectedError)
    ));
}

#[test]
fn requests_handed_out_once_connected() {
    let mut d = device();
    d.attach(7);
    assert!(d.is_connected());
    assert_eq!(
        d.raw_read_request(3, 4, ModBusRegisters::HOLDING).unwrap(),
        RawRead { source: ModBusRegisters::HOLDING, addr: 3, nb: 4 }
    );
    let w = d.write_holding_register_by_name("Rate", &RegisterValue::Float32(0.52f32.to_bits())).unwrap();
    assert_eq!(w.addr, 30);
    assert_eq!(w.data, vec![0x3F05, 0x1EB8]);
}

#[test]
fn write_to_unknown_name_is_not_found() {
    let mut d = device();
    match d.write_holding_register_by_name("Missing", &RegisterValue::U16(1)) {
        Err(ModbusError::RegisterDoesNotExistError { name }) => assert_eq!(name, "Missing"),
        other => panic!("unexpected {other:?}"),
    }
    d.attach(1);
    match d.write_holding_register_by_name("ProjectId", &RegisterValue::U32(1)) {
        Err(ModbusError::RegisterDoesNotExistError { name }) => assert_eq!(name, "ProjectId"),
        other => panic!("unexpected {other:?}"),
    }
}

#[test]
fn name_lookup_prefers_input_space() {
    let d = device();
    let (r, space) = d.get_register_by_name("Shared").unwrap();
    assert_eq!((r.addr, space), (4, ModBusRegisters::INPUT));
    let (r, space) = d.get_register_by_name("Version").unwrap();
    assert_eq!((r.addr, space), (10, ModBusRegisters::HOLDING));
    assert!(matches!(d.get_register_by_name("Nope"), Err(ModbusError::RegisterDoesNotExistError { .. })));
}

#[test]
fn batch_by_name_drops_unknown_names() {
    let d = device();
    let names = vec!["Version".to_string(), "Ghost".to_string(), "Rate".to_string()];
    let b = d.read_registers_by_name(&names, ModBusRegisters::HOLDING);
    assert_eq!(b.registers.len(), 2);
    assert_eq!(b.outcome.unknown, vec!["Ghost".to_string()]);
    assert_eq!(b.space, ModBusRegisters::HOLDING);
}

#[test]
fn dump_reads_only_readable_registers() {
    let d = device();
    let b = d.dump_registers(ModBusRegisters::INPUT);
    let names: Vec<&str> = b.registers.iter().map(|r| r.name.as_str()).collect();
    assert_eq!(names, vec!["ProjectId", "Shared"]);
}

#[test]
fn catalog_keeps_last_register_of_a_name() {
    let m = RegisterMap::from_registers(vec![
        reg("a", 1, 1, DataType::UInt16, true),
        reg("a", 9, 1, DataType::UInt16, true),
    ]);
    assert_eq!(m.len(), 1);
    assert_eq!(m.get("a").unwrap().addr, 9);
    assert!(m.get("b").is_none());
    let mut m = RegisterMap::new();
    m.insert(reg("x", 3, 1, DataType::UInt16, true));
    m.insert(reg("y", 4, 1, DataType::UInt16, true));
    m.insert(reg("x", 5, 1, DataType::UInt16, true));
    assert_eq!(m.len(), 2);
    assert_eq!(m.get("x").unwrap().addr, 5);
}

#[test]
fn definition_record_width_in_bits() {
    let r = register_from_definition(412, "Counter".to_string(), SchemaType::UInt32, 32, return_true());
    assert_eq!(r.addr, 412);
    assert_eq!(r.len, 2);
    assert_eq!(r.data_type, DataType::UInt32);
    assert!(r.read);
    let r = register_from_definition(0, "Blob".to_string(), SchemaType::Sized, 528, false);
    assert_eq!((r.len, r.data_type, r.read), (33, DataType::Sized, false));
    let t: DataType = SchemaType::Float32.into();
    assert_eq!(t, DataType::Float32);
}

#[test]
fn errors_fall_in_their_class() {
    assert!(matches!(DeviceError::from(ModbusError::Exception { code: 2 }), DeviceError::RequestError { .. }));
    assert!(matches!(DeviceError::from(ModbusError::IOerror), DeviceError::DeviceNotAccessibleError { .. }));
    assert!(matches!(
        DeviceError::from(ModbusError::Transport { link_lost: true }),
        DeviceError::DeviceNotAccessibleError { .. }
    ));
    assert!(matches!(DeviceError::from(ModbusError::Transport { link_lost: false }), DeviceError::RequestError { .. }));
    assert!(matches!(DeviceError::from(ModbusError::Protocol), DeviceError::RequestError { .. }));
    assert!(matches!(DeviceError::from(ModbusError::ConversionError), DeviceError::ConversionError { .. }));
    assert!(matches!(
        DeviceError::from(ModbusError::DeviceNotConnectedError),
        DeviceError::DeviceNotConnectedError { .. }
    ));
    match DeviceError::from(ModbusError::RegisterDoesNotExistError { name: "r".to_string() }) {
        DeviceError::RegisterNotFoundError { name } => assert_eq!(name, "r"),
        other => panic!("unexpected {other:?}"),
    }
}
