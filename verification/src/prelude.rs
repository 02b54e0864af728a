//! The items most callers need, in one place.

pub use crate::pos::artable::AroundDistTbl;
pub use crate::pos::artable::RingBound;
pub use crate::pos::neighbor::neigh_hex;
pub use crate::pos::HMapDist;
pub use crate::pos::HMapPos;
pub use crate::pos::HMapSize;
