//! The topic store and the login store.

pub mod crud;
pub mod login;

pub use crud::CrudStore;
pub use login::LoginStore;
