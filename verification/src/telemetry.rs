pub mod time_travel;
