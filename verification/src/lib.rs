pub mod color_space;
pub mod downsampling;
pub mod encoding_decoding;
pub mod quantization;
pub mod raster;
pub mod utils;
