pub mod bible;
