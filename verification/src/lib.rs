pub mod bill_emulator;
pub mod essp_protocol;
pub mod serial_bridge;
