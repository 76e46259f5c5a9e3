pub mod text;
pub mod data;
pub mod nmcli;
pub mod bluetooth;
pub mod wpctl;
pub mod error;
pub mod devmem;
pub mod battery;
pub mod guard;
pub mod sleep;
pub mod clock;
pub mod device;
pub mod keys;
pub mod shell;
pub mod settings;
pub mod dummy;
pub mod icons;
pub mod apps;
pub mod status;
pub mod paths;
pub mod i2c;
pub mod compositor;
pub mod panel;
pub mod pending;
pub mod stack;
pub mod touch;
pub mod inputs;
pub mod flags;
