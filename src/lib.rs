//! Renders a magazine landing page: issue cards, social-preview tags and a
//! logo fragment, substituted into an HTML template.
pub mod text;
pub mod dates;
pub mod model;
pub mod order;
pub mod render;
pub mod page;
