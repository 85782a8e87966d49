//! Bluetooth Low Energy support: the radio hardware-interface layer and
//! the link-layer connection state.

pub mod ble_advertising_hil;
pub mod ble_connection_driver;
