//! Verified core of a COSMIC panel applet that shows CPU, RAM and GPU load.
//!
//! The library holds the applet's decisions and text: which sysfs files
//! describe a GPU, which hwmon sensor is the CPU temperature, how readings
//! are rounded into the panel and popup lines, and how the applet reacts to
//! its messages. Reading the files, sampling the system and drawing the
//! widgets are left to the program around it.

pub mod text;
pub mod number;
pub mod order;
pub mod monitor;
pub mod cpu_temp;
pub mod window;
