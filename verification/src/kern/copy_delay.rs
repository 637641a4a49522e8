pub mod zug_nummer;
