//! A minimal content-sharing store: users publish posts, tag them, and like
//! them. A primary table holds every post under its identifier; two
//! denormalized secondary indices (posts by tag, posts by liking user) are
//! kept consistent with the primary table as posts are created and liked.

pub mod index;
pub mod post;
pub mod store;
pub mod tags;

pub use post::Post;
pub use post::PostView;
pub use store::SocialNetworking;
pub use store::StoreError;
pub use store::StoreView;
