//! A booking tracker: reservations of named items over closed ranges of
//! calendar days, admitted only when they do not overlap an earlier
//! reservation of the same item.

pub mod book;
pub mod calendar;
pub mod choice;
pub mod request;
pub mod text;
