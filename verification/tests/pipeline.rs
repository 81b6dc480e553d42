use jpeg_pipeline::color_space::{px_to_rgb, px_to_ycbcr};
use jpeg_pipeline::downsampling::{chroma_downsample, chroma_reshore};
use jpeg_pipeline::encoding_decoding::{zigzag_scan, zigzag_unscan, ZIGZAG_ORDER};
use jpeg_pipeline::raster::ImageBuf;
use jpeg_pipeline::utils::{merge_blocks, split_into_blocks};
use jpeg_pipeline::encoding_decoding::{huffman_encode, LUMINANCE_AC_HUFFMAN_CODES, LUMINANCE_DC_HUFFMAN_CODES};

#[test]
fn color_white_black() {
    assert_eq!(px_to_ycbcr([255, 255, 255]), [255, 128, 128]);
    assert_eq!(px_to_ycbcr([0, 0, 0]), [0, 128, 128]);
    assert_eq!(px_to_rgb([255, 128, 128]), [255, 255, 255]);
}

#[test]
fn zigzag_round_trip() {
    let mut block = [[0i32; 8]; 8];
    for r in 0..8 {
        for c in 0..8 {
            block[r][c] = (r * 8 + c) as i32 - 31;
        }
    }
    let z = zigzag_scan(&block);
    assert_eq!(z[0], block[0][0]);
    assert_eq!(z[1], block[0][1]);
    assert_eq!(z[2], block[1][0]);
    assert_eq!(zigzag_unscan(&z), block);
    assert_eq!(ZIGZAG_ORDER[63], [7, 7]);
}

#[test]
fn padding_17x17() {
    let img = ImageBuf::new(17, 17);
    let (y, cb, cr, w, h) = chroma_downsample(&img);
    assert_eq!((w, h), (17, 17));
    assert_eq!(y.len(), 32);
    assert_eq!(y[0].len(), 32);
    assert_eq!(cb.len(), 16);
    assert_eq!(cr[0].len(), 16);
    let back = chroma_reshore(&y, &cb, &cr, 17, 17);
    assert_eq!(back.width, 17);
    assert_eq!(back.height, 17);
}

#[test]
fn split_merge_round_trip() {
    let img = ImageBuf::new(16, 16);
    let (y, cb, cr, _, _) = chroma_downsample(&img);
    let (yb, cbb, crb) = split_into_blocks(&y, &cb, &cr);
    assert_eq!(yb.len(), 4);
    assert_eq!(cbb.len(), 1);
    let (y2, cb2, cr2) = merge_blocks(&yb, &cbb, &crb, 16, 16);
    assert_eq!(y, y2);
    assert_eq!(cb, cb2);
    assert_eq!(cr, cr2);
}

#[test]
fn entropy_encode_all_zero() {
    let blocks = vec![[0i32; 64]];
    let bits = huffman_encode(&blocks, &LUMINANCE_DC_HUFFMAN_CODES, &LUMINANCE_AC_HUFFMAN_CODES);
    // DC category 0 -> "0"; all-zero AC -> end-of-block "10"
    assert_eq!(bits, vec![false, true, false]);
}
