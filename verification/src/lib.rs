//! A container for raster images whose samples lie in one flat, row-major
//! store, and a codec for the single-frame IDP stream format.

pub mod buffer;
pub mod color;
pub mod decoder;
pub mod encoder;
pub mod endian;
pub mod image;
pub mod layout;
pub mod traits;

pub use buffer::{
    EnumeratePixels, EnumeratePixelsMut, Gray16Image, GrayFloatImage, ImageBuffer, PixelRefs,
    PixelsMut,
};
pub use color::{GrayF32, GrayU16, PixelMut, PixelRef, PixelType};
pub use decoder::{
    decode, DecodingBuffer, DecodingResult, Header, IDPDecoder, ImageDecoder, ImageError,
    ImageResult,
};
pub use encoder::{encode, encode_f32, encode_u16};
pub use image::{copy_from, Pixels, SubImage};
pub use traits::{Container, ContainerMut, GenericImage, Pixel, Primitive};
