//! Local Ubuntu machines in QEMU: what is kept about them, how the programs
//! that run and reach them are called, and what follows from what they say.

use vstd::prelude::*;

pub mod api;
pub mod bytes;
pub mod cli;
pub mod cloud_init;
pub mod cloud_laws;
pub mod dependencies;
pub mod error;
pub mod host_laws;
pub mod host_sections;
pub mod image_laws;
pub mod images;
pub mod instance;
pub mod instance_laws;
pub mod json;
pub mod launch_laws;
pub mod lines;
pub mod lock;
pub mod order;
pub mod os_text;
pub mod path;
pub mod ports;
pub mod qemu;
pub mod qemu_laws;
pub mod reading;
pub mod report;
pub mod report_laws;
pub mod request_laws;
pub mod section_laws;
pub mod ssh;
pub mod ssh_config;
pub mod ssh_config_laws;
pub mod ssh_laws;
pub mod state;
pub mod state_laws;
pub mod text;
pub mod text_laws;
pub mod wording_laws;
pub mod yaml;

pub use api::Vm;
pub use api::VmSpec;
pub use error::Error;
pub use instance::VmInfo;
pub use instance::VmSshInfo;
pub use ssh::ExecOutput;
pub use state::AccelMode;
pub use state::GuestArch;
pub use state::InstanceStatus;
pub use state::PortForward;

verus! {

} // verus!
