//! What each service answers to a request.

pub mod auth;
pub mod message;
pub mod topic;

pub use auth::AuthService;
pub use message::{
    DeliveryAction, DeliveryEvent, DeliveryLoop, IteratorStopped, MessageError, MessageService,
    ReverseMessageIterator, Subscriber, Subscription,
};
pub use topic::{TopicError, TopicService};
