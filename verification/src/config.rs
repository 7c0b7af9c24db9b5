pub mod compass_configuration_error;
pub mod compass_configuration_field;
pub mod config_keys;
pub mod config_lookup;
pub mod json_value;
pub mod one_or_many;
