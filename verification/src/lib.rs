//! Declarative host-bootstrap library: a configuration model for local users
//! and package installations, builders that translate each declared entity
//! into the argument vector of the matching administrative command, and a
//! reporter that renders the outcome of one invocation.

pub mod config;
pub mod decode;
pub mod driver;
pub mod packages;
pub mod report;
pub mod users;

pub use config::Config;
pub use config::encode_config;
pub use driver::Invocation;
pub use driver::package_banner;
pub use driver::plan_invocations;
pub use driver::privilege_ok;
pub use driver::user_banner;
pub use packages::PackageList;
pub use packages::build_pkg_args;
pub use report::Outcome;
pub use report::render_report;
pub use users::User;
pub use users::build_useradd_args;
