pub mod swift_backend;
