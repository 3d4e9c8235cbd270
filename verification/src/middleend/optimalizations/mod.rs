pub mod death_store_load;
pub mod phinode_create;
