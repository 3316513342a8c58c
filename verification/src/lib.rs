//! Flight-controller core: the serial protocol decoders, the motor-output
//! rules, the sensor bring-up sequences and the MAVLink 2 encoder, each stated
//! as a contract and proved.

pub mod baro;
pub mod bench;
pub mod bus;
pub mod compass;
pub mod crc;
pub mod crsf;
pub mod dshot;
pub mod esc;
pub mod esc_telem;
pub mod estimator;
pub mod float;
pub mod gates;
pub mod gps;
pub mod imu;
pub mod mavlink;
pub mod mtf01;
pub mod nav;
pub mod telemetry;
pub mod tfluna;
pub mod usb;
pub mod wire;
