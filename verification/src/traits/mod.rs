pub mod adapt;
pub mod exact_size;
pub mod lending_iterator;
