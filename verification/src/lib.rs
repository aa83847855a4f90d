//! A typed codec between native Rust values and the tagged attribute-value
//! representation of a key-value document store, together with an item-level
//! normalizer that rewrites empty-string attributes to null attributes.

pub mod attribute;
pub mod attributes;
pub mod containers;
pub mod numeric;
pub mod sets;
pub mod value;

pub use attribute::Attribute;
pub use attribute::Blob;
pub use attributes::into_item;
pub use attributes::into_item_unchecked;
pub use attributes::normalize_item;
pub use attributes::DynamoType;
pub use containers::MVec;
pub use numeric::NumAttr;
pub use sets::BSVec;
pub use sets::NSVec;
pub use sets::SSVec;
pub use value::AttributeError;
pub use value::AttributeValue;
