pub mod covenant;
