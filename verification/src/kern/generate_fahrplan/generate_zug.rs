pub mod generate_route;
