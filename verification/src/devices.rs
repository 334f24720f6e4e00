pub mod dc_dc_converter;
