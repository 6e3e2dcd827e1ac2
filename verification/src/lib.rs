//! JavaScript scripting on the Boa engine.
//!
//! Scripts run in virtual machines of the engine. The bindings convert the values that pass between
//! a script and the host application, give scripts the classes by which they use host values and
//! types, and load, reload and call the scripts.
//!
//! Whatever reads or changes a virtual machine, and whatever is asked of the host application, goes
//! through a [`session::Session`]. The contracts say what the bindings do over the journal of that
//! session.
pub mod call_laws;
pub mod calls;
pub mod classes;
pub mod components;
pub mod conversion_laws;
pub mod cycles;
pub mod data;
pub mod dialogue;
pub mod engine;
pub mod from_js;
pub mod function_registry;
pub mod globals;
pub mod host;
pub mod into_js;
pub mod machine_laws;
pub mod mirror;
pub mod native;
pub mod number;
pub mod reference;
pub mod registration;
pub mod script_laws;
pub mod script_value;
pub mod session;
pub mod setup;
pub mod text;
pub mod value;
pub mod vm;
pub mod vm_registry;
