//! Disk images: detection, decoding, reads and checksums.

use celium::error::CelError;
use celium::image::any::{inspect, open, AnyImage};
use celium::image::digest::full_image_crc32c;
use celium::image::disk::{DiskImage, Piece};
use celium::image::format::{detect_format, detect_from_bytes, FormatKind};
use celium::image::qcow2::{Qcow2Image, Qcow2Spot};
use celium::image::raw::RawImage;
use celium::image::util::{
    be_u32, be_u64, ceil_div, crc32c, crc32c_continue, le_u16, le_u32, le_u64, power_of_two,
};
use celium::image::vhdx::{
    VhdxImage, HEADER1_OFF, HEADER2_OFF, REGION_TABLE1_OFF, REGION_TABLE2_OFF,
};
use celium::image::vmdk::{VmdkImage, SECTOR};

const REGION_BAT: [u8; 16] = [
    0x66, 0x77, 0xC2, 0x2D, 0x23, 0xF6, 0x00, 0x42, 0x9D, 0x64, 0x11, 0x5E, 0x9B, 0xFD, 0x4A, 0x08,
];
const REGION_METADATA: [u8; 16] = [
    0x06, 0xA2, 0x7C, 0x8B, 0x90, 0x47, 0x9A, 0x4B, 0xB8, 0xFE, 0x57, 0x5F, 0x05, 0x0F, 0x88, 0x6E,
];
const META_FILE_PARAMETERS: [u8; 16] = [
    0x37, 0x67, 0xA1, 0xCA, 0x36, 0xFA, 0x43, 0x4D, 0xB3, 0xB6, 0x33, 0xF0, 0xAA, 0x44, 0xE7, 0x6B,
];
const META_VIRTUAL_DISK_SIZE: [u8; 16] = [
    0x24, 0x42, 0xA5, 0x2F, 0x1B, 0xCD, 0x76, 0x48, 0xB2, 0x11, 0x5D, 0xBE, 0xD8, 0x3B, 0xF4, 0xB8,
];
const META_LOGICAL_SECTOR_SIZE: [u8; 16] = [
    0x1D, 0xBF, 0x41, 0x81, 0x6F, 0xA9, 0x09, 0x47, 0xBA, 0x47, 0xF2, 0x33, 0xA8, 0xFA, 0xAB, 0x5F,
];

// --- detection ---------------------------------------------------------------

#[test]
fn detects_qcow2_magic() {
    assert_eq!(detect_from_bytes(b"QFI\xfb\x00\x00\x00\x03").unwrap(), FormatKind::Qcow2);
}

#[test]
fn detects_vmdk_magic() {
    assert_eq!(detect_from_bytes(b"KDMV\x01\x00\x00\x00").unwrap(), FormatKind::Vmdk);
}

#[test]
fn detects_vhdx_magic() {
    assert_eq!(detect_from_bytes(b"vhdxfile\x00\x00\x00\x00").unwrap(), FormatKind::Vhdx);
}

#[test]
fn defaults_to_raw() {
    assert_eq!(detect_from_bytes(b"random bytes here").unwrap(), FormatKind::Raw);
}

#[test]
fn rejects_empty() {
    let err = detect_from_bytes(&[]).unwrap_err();
    assert_eq!(err.code(), "invalid");
}

#[test]
fn tags_are_stable() {
    assert_eq!(FormatKind::Raw.tag(), "raw");
    assert_eq!(FormatKind::Qcow2.tag(), "qcow2");
    assert_eq!(FormatKind::Vmdk.tag(), "vmdk");
    assert_eq!(FormatKind::Vhdx.tag(), "vhdx");
}

#[test]
fn detect_format_recognises_each_magic() {
    assert_eq!(detect_format(&[0u8; 64]).unwrap(), FormatKind::Raw);

    let mut f = b"QFI\xfb".to_vec();
    f.extend_from_slice(&[0u8; 64]);
    assert_eq!(detect_format(&f).unwrap(), FormatKind::Qcow2);

    let mut f = b"KDMV".to_vec();
    f.extend_from_slice(&[0u8; 64]);
    assert_eq!(detect_format(&f).unwrap(), FormatKind::Vmdk);

    let mut f = b"vhdxfile".to_vec();
    f.extend_from_slice(&[0u8; 64]);
    assert_eq!(detect_format(&f).unwrap(), FormatKind::Vhdx);
}

#[test]
fn a_magic_that_is_cut_short_is_raw() {
    assert_eq!(detect_from_bytes(b"QFI").unwrap(), FormatKind::Raw);
    assert_eq!(detect_from_bytes(b"vhdxfil").unwrap(), FormatKind::Raw);
    assert_eq!(detect_format(&[]).unwrap_err(), CelError::Invalid("image is empty"));
}

// --- integers and checksums ---------------------------------------------------

#[test]
fn crc32c_known_vectors() {
    assert_eq!(crc32c(&[]), 0);
    assert_eq!(crc32c(&[0u8; 32]), 0x8a91_36aa);
    assert_eq!(crc32c(&[0xffu8; 32]), 0x62a8_ab43);
    assert_eq!(crc32c(b"123456789"), 0xe306_9283);
}

#[test]
fn crc32c_streaming_matches_oneshot() {
    let bytes: Vec<u8> = (0..512u16).map(|i| (i & 0xff) as u8).collect();
    let oneshot = crc32c(&bytes);
    for chunk in [1usize, 3, 7, 13, 64, 511] {
        let mut state: u32 = 0xFFFF_FFFF;
        for c in bytes.chunks(chunk) {
            state = crc32c_continue(state, c);
        }
        let streamed = state ^ 0xFFFF_FFFF;
        assert_eq!(streamed, oneshot, "mismatch at chunk={chunk}");
    }
}

#[test]
fn endian_helpers_round_trip() {
    let mut buf = [0u8; 8];
    buf[0..2].copy_from_slice(&0x1234u16.to_le_bytes());
    assert_eq!(le_u16(&buf, 0).unwrap(), 0x1234);
    buf[0..4].copy_from_slice(&0xdead_beefu32.to_le_bytes());
    assert_eq!(le_u32(&buf, 0).unwrap(), 0xdead_beef);
    buf[0..8].copy_from_slice(&0x0102_0304_0506_0708u64.to_le_bytes());
    assert_eq!(le_u64(&buf, 0).unwrap(), 0x0102_0304_0506_0708);
    buf[0..4].copy_from_slice(&0xdead_beefu32.to_be_bytes());
    assert_eq!(be_u32(&buf, 0).unwrap(), 0xdead_beef);
}

#[test]
fn endian_helpers_short_read_is_invalid() {
    let buf = [0u8; 3];
    assert!(le_u32(&buf, 0).is_err());
    assert!(le_u64(&buf, 0).is_err());
    assert!(le_u32(&buf, 8).is_err());
}

#[test]
fn fields_past_the_end_name_their_fault() {
    let buf = [1u8; 8];
    assert_eq!(be_u64(&buf, 0).unwrap(), 0x0101_0101_0101_0101);
    assert_eq!(be_u64(&buf, 1).unwrap_err(), CelError::Invalid("util: be_u64 short read"));
    assert_eq!(le_u16(&buf, usize::MAX).unwrap_err(), CelError::Invalid("util: le_u16 overflow"));
    assert_eq!(le_u16(&buf, 7).unwrap_err(), CelError::Invalid("util: le_u16 short read"));
}

#[test]
fn arithmetic_helpers() {
    assert_eq!(ceil_div(10, 3), 4);
    assert_eq!(ceil_div(9, 3), 3);
    assert_eq!(ceil_div(u64::MAX, 1), u64::MAX);
    assert_eq!(ceil_div(0, 5), 0);
    assert!(power_of_two(1) && power_of_two(8) && power_of_two(1 << 63));
    assert!(!power_of_two(0) && !power_of_two(12) && !power_of_two(u64::MAX));
}

// --- raw ---------------------------------------------------------------------

#[test]
fn opens_and_reports_size() {
    let r = RawImage::open("disk.img", vec![0xAB; 4096]).unwrap();
    let info = r.info();
    assert_eq!(info.format, FormatKind::Raw);
    assert_eq!(info.virtual_size, 4096);
    assert!(info.cluster_size.is_none());
}

#[test]
fn read_at_returns_correct_bytes() {
    let mut bytes = vec![0u8; 1024];
    for (i, b) in bytes.iter_mut().enumerate() {
        *b = (i & 0xFF) as u8;
    }
    let r = RawImage::open("disk.img", bytes).unwrap();
    let mut buf = [0u8; 16];
    let n = r.read_at(100, &mut buf).unwrap();
    assert_eq!(n, 16);
    assert_eq!(buf[0], 100);
    assert_eq!(buf[15], 115);
}

#[test]
fn read_at_clips_at_eof() {
    let r = RawImage::open("disk.img", vec![1u8; 10]).unwrap();
    let mut buf = [0u8; 16];
    let n = r.read_at(5, &mut buf).unwrap();
    assert_eq!(n, 5);
    let n2 = r.read_at(100, &mut buf).unwrap();
    assert_eq!(n2, 0);
}

#[test]
fn read_exact_at_errors_on_short() {
    let r = RawImage::open("disk.img", vec![0u8; 8]).unwrap();
    let mut buf = [0u8; 16];
    let err = r.read_exact_at(0, &mut buf).unwrap_err();
    assert_eq!(err.code(), "invalid");
}

#[test]
fn a_short_read_leaves_the_rest_of_the_buffer() {
    let r = RawImage::open("disk.img", vec![1u8; 10]).unwrap();
    assert_eq!(r.path(), "disk.img");
    let mut buf = [9u8; 16];
    assert_eq!(r.read_at(5, &mut buf).unwrap(), 5);
    assert_eq!(&buf[..5], &[1u8; 5]);
    assert_eq!(&buf[5..], &[9u8; 11]);
    let mut exact = [9u8; 16];
    assert_eq!(
        r.read_exact_at(0, &mut exact).unwrap_err(),
        CelError::Invalid("disk: short read")
    );
    assert_eq!(&exact[..10], &[1u8; 10]);
    assert_eq!(&exact[10..], &[9u8; 6]);
    let mut fits = [0u8; 4];
    r.read_exact_at(6, &mut fits).unwrap();
    assert_eq!(fits, [1u8; 4]);
}

// --- qcow2 -------------------------------------------------------------------

/// A version 3 image: two clusters, the first one allocated and full of 0x42.
fn synth_qcow2_v3() -> Vec<u8> {
    const CB: u32 = 16;
    const CS: u64 = 1 << CB;
    let mut file = vec![0u8; (6 * CS) as usize];
    file[0..4].copy_from_slice(b"QFI\xfb");
    file[4..8].copy_from_slice(&3u32.to_be_bytes());
    file[20..24].copy_from_slice(&CB.to_be_bytes());
    let virtual_size = 2 * CS;
    file[24..32].copy_from_slice(&virtual_size.to_be_bytes());
    file[36..40].copy_from_slice(&1u32.to_be_bytes());
    file[40..48].copy_from_slice(&CS.to_be_bytes());
    let refcount_table_offset = 4 * CS;
    file[48..56].copy_from_slice(&refcount_table_offset.to_be_bytes());
    file[56..60].copy_from_slice(&1u32.to_be_bytes());
    file[96..100].copy_from_slice(&4u32.to_be_bytes());
    file[100..104].copy_from_slice(&104u32.to_be_bytes());
    let l2_offset = 2 * CS;
    file[CS as usize..CS as usize + 8].copy_from_slice(&l2_offset.to_be_bytes());
    let data_offset = 3 * CS;
    let l2_base = (2 * CS) as usize;
    file[l2_base..l2_base + 8].copy_from_slice(&data_offset.to_be_bytes());
    for b in &mut file[(3 * CS) as usize..(4 * CS) as usize] {
        *b = 0x42;
    }
    let refcount_block_offset = 5 * CS;
    let rt_base = (4 * CS) as usize;
    file[rt_base..rt_base + 8].copy_from_slice(&refcount_block_offset.to_be_bytes());
    let rb_base = (5 * CS) as usize;
    for i in 0..6 {
        let one = 1u16.to_be_bytes();
        file[rb_base + i * 2..rb_base + i * 2 + 2].copy_from_slice(&one);
    }
    file
}

fn qcow2_fault(at: usize, bytes: &[u8]) -> CelError {
    let mut f = synth_qcow2_v3();
    f[at..at + bytes.len()].copy_from_slice(bytes);
    Qcow2Image::open("q", f).unwrap_err()
}

#[test]
fn opens_v3_header_and_reports_info() {
    let img = Qcow2Image::open("q", synth_qcow2_v3()).unwrap();
    assert_eq!(img.version(), 3);
    assert_eq!(img.cluster_size(), 65_536);
    let info = img.info();
    assert_eq!(info.format, FormatKind::Qcow2);
    assert_eq!(info.virtual_size, 2 * 65_536);
    assert_eq!(info.cluster_size, Some(65_536));
    assert_eq!(info.backend, "qcow2-v3");
}

#[test]
fn reads_allocated_cluster() {
    let img = Qcow2Image::open("q", synth_qcow2_v3()).unwrap();
    let mut buf = [0u8; 32];
    let n = img.read_at(0, &mut buf).unwrap();
    assert_eq!(n, 32);
    assert!(buf.iter().all(|&b| b == 0x42));
}

#[test]
fn reads_unallocated_cluster_as_zero() {
    let img = Qcow2Image::open("q", synth_qcow2_v3()).unwrap();
    let mut buf = [0xCC; 64];
    let n = img.read_at(65_536, &mut buf).unwrap();
    assert_eq!(n, 64);
    assert!(buf.iter().all(|&b| b == 0));
}

#[test]
fn qcow2_read_clips_at_virtual_size() {
    let img = Qcow2Image::open("q", synth_qcow2_v3()).unwrap();
    let mut buf = [1u8; 16];
    let n = img.read_at(2 * 65_536, &mut buf).unwrap();
    assert_eq!(n, 0);
}

#[test]
fn qcow2_rejects_bad_magic() {
    let Err(err) = Qcow2Image::open("q", vec![0u8; 256]) else {
        panic!("bad magic should be rejected")
    };
    assert_eq!(err.code(), "invalid");
}

#[test]
fn qcow2_refusals_name_their_reason() {
    assert_eq!(
        Qcow2Image::open("q", vec![0u8; 71]).unwrap_err(),
        CelError::Invalid("qcow2: header truncated")
    );
    assert_eq!(qcow2_fault(0, b"X"), CelError::Invalid("qcow2: bad magic"));
    assert_eq!(
        qcow2_fault(4, &4u32.to_be_bytes()),
        CelError::Invalid("qcow2: only v2/v3 supported")
    );
    assert_eq!(
        qcow2_fault(20, &64u32.to_be_bytes()),
        CelError::Invalid("qcow2: cluster_bits out of range")
    );
    assert_eq!(
        qcow2_fault(20, &22u32.to_be_bytes()),
        CelError::Invalid("qcow2: cluster_bits outside spec range 9..=21")
    );
    assert_eq!(
        qcow2_fault(32, &1u32.to_be_bytes()),
        CelError::Invalid("qcow2: encrypted images not supported")
    );
    assert_eq!(
        qcow2_fault(8, &1u64.to_be_bytes()),
        CelError::Invalid("qcow2: backing-file chains not supported")
    );
    assert_eq!(
        qcow2_fault(40, &0x201u64.to_be_bytes()),
        CelError::Invalid("qcow2: invalid l1_table_offset")
    );
    assert_eq!(
        qcow2_fault(72, &8u64.to_be_bytes()),
        CelError::Invalid("qcow2: incompatible_features bit not supported (compress/extended-l2)")
    );
    assert_eq!(
        qcow2_fault(40, &0x10_0000u64.to_be_bytes()),
        CelError::Storage("read l1 q: failed to fill whole buffer".to_string())
    );
}

#[test]
fn qcow2_version_2_has_no_feature_bits_and_no_zero_flag() {
    let mut f = synth_qcow2_v3();
    f[4..8].copy_from_slice(&2u32.to_be_bytes());
    f[72..80].copy_from_slice(&8u64.to_be_bytes());
    // Bit 0 of the entry is the zero flag of version 3 only.
    f[2 * 65_536 + 7] |= 1;
    let img = Qcow2Image::open("q", f).unwrap();
    assert_eq!(img.info().backend, "qcow2-v2");
    assert_eq!(img.l1_len(), 1);
    let mut buf = [0u8; 4];
    assert_eq!(img.read_at(0, &mut buf).unwrap(), 4);
    assert_eq!(buf, [0x42; 4]);
}

#[test]
fn qcow2_entries_decide_reads() {
    let mut zeroed = synth_qcow2_v3();
    zeroed[2 * 65_536 + 7] |= 1;
    let img = Qcow2Image::open("q", zeroed).unwrap();
    let mut buf = [7u8; 4];
    assert_eq!(img.read_at(0, &mut buf).unwrap(), 4);
    assert_eq!(buf, [0; 4]);

    let mut packed = synth_qcow2_v3();
    packed[2 * 65_536] = 0x40;
    let img = Qcow2Image::open("q", packed).unwrap();
    assert_eq!(
        img.read_at(0, &mut buf).unwrap_err(),
        CelError::Invalid("qcow2: compressed cluster not supported")
    );

    let mut far = synth_qcow2_v3();
    far[65_536..65_544].copy_from_slice(&0x100_0000u64.to_be_bytes());
    let img = Qcow2Image::open("q", far).unwrap();
    assert_eq!(
        img.read_at(0, &mut buf).unwrap_err(),
        CelError::Storage("read l2 q: failed to fill whole buffer".to_string())
    );

    let mut big = synth_qcow2_v3();
    big[24..32].copy_from_slice(&(1u64 << 40).to_be_bytes());
    let img = Qcow2Image::open("q", big).unwrap();
    assert_eq!(
        img.read_at(1 << 39, &mut buf).unwrap_err(),
        CelError::Invalid("qcow2: l1 index past l1 table")
    );
}

#[test]
fn qcow2_reads_stop_at_cluster_boundaries() {
    let img = Qcow2Image::open("q", synth_qcow2_v3()).unwrap();
    let mut buf = [9u8; 32];
    // 8 bytes are left of the first cluster.
    assert_eq!(img.read_at(65_528, &mut buf).unwrap(), 8);
    assert_eq!(&buf[..8], &[0x42; 8]);
    assert_eq!(&buf[8..], &[9u8; 24]);
    img.read_exact_at(65_528, &mut buf).unwrap();
    assert_eq!(&buf[..8], &[0x42; 8]);
    assert_eq!(&buf[8..], &[0u8; 24]);
}

#[test]
fn qcow2_stages_lead_to_the_data() {
    let f = synth_qcow2_v3();
    let h = celium::image::qcow2::parse_header(&f[..104]).unwrap();
    celium::image::qcow2::validate_header(&h).unwrap();
    let map = celium::image::qcow2::Qcow2Map::new(h, &f[65_536..65_544]);
    assert_eq!(
        map.locate(10, 100).unwrap(),
        Qcow2Spot::Entry { at: 2 * 65_536, intra: 10, take: 100 }
    );
    assert_eq!(
        map.resolve(3 * 65_536, 10, 100).unwrap(),
        Piece::Data { at: 3 * 65_536 + 10, len: 100 }
    );
    assert_eq!(map.resolve(0, 10, 100).unwrap(), Piece::Zeros { len: 100 });
}

// --- vmdk --------------------------------------------------------------------

/// Two grains of 8 sectors, the first one stored and full of 0xAB.
fn synth_vmdk_monolithic_sparse() -> Vec<u8> {
    let sector = 512usize;
    let grain_size_sectors = 8u64;
    let num_gtes_per_gt = 4u32;
    let capacity_sectors = 16u64;
    let gd_sector = 1u64;
    let gt_sector = 2u64;
    let grain0_sector = 6u64;
    let overhead_sectors = grain0_sector;
    let total_sectors = grain0_sector + grain_size_sectors;
    let mut img = vec![0u8; (total_sectors as usize) * sector];
    img[0..4].copy_from_slice(&0x564d_444bu32.to_le_bytes());
    img[4..8].copy_from_slice(&1u32.to_le_bytes());
    img[8..12].copy_from_slice(&0u32.to_le_bytes());
    img[12..20].copy_from_slice(&capacity_sectors.to_le_bytes());
    img[20..28].copy_from_slice(&grain_size_sectors.to_le_bytes());
    img[28..36].copy_from_slice(&0u64.to_le_bytes());
    img[36..44].copy_from_slice(&0u64.to_le_bytes());
    img[44..48].copy_from_slice(&num_gtes_per_gt.to_le_bytes());
    img[48..56].copy_from_slice(&0u64.to_le_bytes());
    img[56..64].copy_from_slice(&gd_sector.to_le_bytes());
    img[64..72].copy_from_slice(&overhead_sectors.to_le_bytes());
    let gd_off = (gd_sector as usize) * sector;
    img[gd_off..gd_off + 4].copy_from_slice(&(gt_sector as u32).to_le_bytes());
    let gt_off = (gt_sector as usize) * sector;
    img[gt_off..gt_off + 4].copy_from_slice(&(grain0_sector as u32).to_le_bytes());
    let g0_off = (grain0_sector as usize) * sector;
    let g0_len = (grain_size_sectors as usize) * sector;
    for b in &mut img[g0_off..g0_off + g0_len] {
        *b = 0xAB;
    }
    img
}

fn vmdk_fault(at: usize, bytes: &[u8]) -> CelError {
    let mut f = synth_vmdk_monolithic_sparse();
    f[at..at + bytes.len()].copy_from_slice(bytes);
    VmdkImage::open("v", f).unwrap_err()
}

#[test]
fn opens_synthetic_vmdk_and_reports_info() {
    let img = VmdkImage::open("v", synth_vmdk_monolithic_sparse()).unwrap();
    let info = img.info();
    assert_eq!(info.format, FormatKind::Vmdk);
    assert_eq!(info.virtual_size, 16 * SECTOR);
    assert_eq!(info.cluster_size, Some(8 * SECTOR));
    assert_eq!(info.backend, "vmdk-monolithic-sparse");
}

#[test]
fn reads_allocated_grain() {
    let img = VmdkImage::open("v", synth_vmdk_monolithic_sparse()).unwrap();
    let mut buf = [0u8; 16];
    let n = img.read_at(0, &mut buf).unwrap();
    assert_eq!(n, 16);
    assert!(buf.iter().all(|&b| b == 0xAB));
}

#[test]
fn reads_unallocated_grain_as_zero() {
    let img = VmdkImage::open("v", synth_vmdk_monolithic_sparse()).unwrap();
    let mut buf = [0xFFu8; 32];
    let n = img.read_at(4096, &mut buf).unwrap();
    assert_eq!(n, 32);
    assert!(buf.iter().all(|&b| b == 0));
}

#[test]
fn vmdk_read_clips_at_virtual_size() {
    let img = VmdkImage::open("v", synth_vmdk_monolithic_sparse()).unwrap();
    let mut buf = [0u8; 100];
    let n = img.read_at(img.virtual_size() - 10, &mut buf).unwrap();
    assert_eq!(n, 10);
}

#[test]
fn vmdk_rejects_bad_magic() {
    let mut img = synth_vmdk_monolithic_sparse();
    img[0..4].copy_from_slice(&0xdead_beefu32.to_le_bytes());
    let Err(err) = VmdkImage::open("v", img) else { panic!("bad magic must be rejected") };
    assert_eq!(err.code(), "invalid");
}

#[test]
fn rejects_compressed() {
    let mut img = synth_vmdk_monolithic_sparse();
    img[77..79].copy_from_slice(&1u16.to_le_bytes());
    let Err(err) = VmdkImage::open("v", img) else { panic!("compressed must be rejected") };
    assert_eq!(err.code(), "invalid");
}

#[test]
fn rejects_zero_gd_offset() {
    let mut img = synth_vmdk_monolithic_sparse();
    img[56..64].copy_from_slice(&0u64.to_le_bytes());
    let Err(err) = VmdkImage::open("v", img) else { panic!("gd==0 must be rejected") };
    assert_eq!(err.code(), "invalid");
}

#[test]
fn vmdk_refusals_name_their_reason() {
    assert_eq!(
        VmdkImage::open("v", b"KDMV".to_vec()).unwrap_err(),
        CelError::Invalid("vmdk: header truncated")
    );
    assert_eq!(
        vmdk_fault(4, &4u32.to_le_bytes()),
        CelError::Invalid("vmdk: unsupported sparse extent version")
    );
    assert_eq!(
        vmdk_fault(20, &4u64.to_le_bytes()),
        CelError::Invalid("vmdk: grain_size_sectors out of spec")
    );
    assert_eq!(
        vmdk_fault(20, &12u64.to_le_bytes()),
        CelError::Invalid("vmdk: grain_size_sectors out of spec")
    );
    assert_eq!(
        vmdk_fault(44, &0u32.to_le_bytes()),
        CelError::Invalid("vmdk: num_gtes_per_gt must be a power of two")
    );
    assert_eq!(
        vmdk_fault(64, &0u64.to_le_bytes()),
        CelError::Invalid("vmdk: overhead == 0 (malformed)")
    );
    assert_eq!(
        vmdk_fault(28, &[0xffu8; 16]),
        CelError::Invalid("vmdk: descriptor offset+size overflow")
    );
    assert_eq!(
        vmdk_fault(56, &(u64::MAX / 2).to_le_bytes()),
        CelError::Invalid("vmdk: GD offset overflow")
    );
    assert_eq!(
        vmdk_fault(56, &1000u64.to_le_bytes()),
        CelError::Storage("read gd v: failed to fill whole buffer".to_string())
    );
}

#[test]
fn vmdk_unknown_flags_are_let_through() {
    let mut f = synth_vmdk_monolithic_sparse();
    f[8..12].copy_from_slice(&0xffff_0000u32.to_le_bytes());
    assert!(VmdkImage::open("v", f).is_ok());
}

#[test]
fn vmdk_reads_cross_grains_and_fail_whole() {
    let img = VmdkImage::open("v", synth_vmdk_monolithic_sparse()).unwrap();
    assert_eq!(img.path(), "v");
    let mut buf = [9u8; 32];
    assert_eq!(img.read_at(4080, &mut buf).unwrap(), 32);
    assert_eq!(&buf[..16], &[0xAB; 16]);
    assert_eq!(&buf[16..], &[0u8; 16]);

    let mut far = synth_vmdk_monolithic_sparse();
    far[512..516].copy_from_slice(&500u32.to_le_bytes());
    let img = VmdkImage::open("v", far).unwrap();
    assert_eq!(
        img.read_at(0, &mut buf).unwrap_err(),
        CelError::Storage("read gt: failed to fill whole buffer".to_string())
    );

    let mut cut = synth_vmdk_monolithic_sparse();
    cut[1024..1028].copy_from_slice(&500u32.to_le_bytes());
    let img = VmdkImage::open("v", cut).unwrap();
    assert_eq!(
        img.read_at(0, &mut buf).unwrap_err(),
        CelError::Storage("read grain: failed to fill whole buffer".to_string())
    );
    // A directory entry of 1 stands for nothing stored.
    let mut one = synth_vmdk_monolithic_sparse();
    one[512..516].copy_from_slice(&1u32.to_le_bytes());
    let img = VmdkImage::open("v", one).unwrap();
    assert_eq!(img.read_at(0, &mut buf).unwrap(), 32);
    assert_eq!(buf, [0u8; 32]);
}

#[test]
fn vmdk_header_accessors() {
    let f = synth_vmdk_monolithic_sparse();
    let h = celium::image::vmdk::parse_header(&f[..512]).unwrap();
    assert!(!h.descriptor_present());
    assert_eq!(h.first_grain_byte(), 6 * 512);
    assert_eq!(celium::image::vmdk::directory_extent(&h).unwrap(), (512, 4));
}

// --- vhdx --------------------------------------------------------------------

/// One block of 1 MiB, present and full of 0x5A.
fn synth_vhdx_dynamic() -> Vec<u8> {
    const FILE_LEN: usize = 0x40_0000;
    let mut img = vec![0u8; FILE_LEN];
    img[0..8].copy_from_slice(b"vhdxfile");
    write_header(&mut img, HEADER1_OFF as usize, 1, 0);
    write_header(&mut img, HEADER2_OFF as usize, 1, 0);
    write_region_table(&mut img, REGION_TABLE1_OFF as usize);
    write_region_table(&mut img, REGION_TABLE2_OFF as usize);
    write_metadata_region(&mut img, 0x10_0000);
    let bat_off = 0x20_0000usize;
    let pb_entry: u64 = 0x30_0000 | 6;
    img[bat_off..bat_off + 8].copy_from_slice(&pb_entry.to_le_bytes());
    for b in &mut img[0x30_0000..0x40_0000] {
        *b = 0x5A;
    }
    img
}

fn write_header(img: &mut [u8], off: usize, seq: u64, log_length: u32) {
    let mut hdr = vec![0u8; 4096];
    hdr[0..4].copy_from_slice(b"head");
    hdr[8..16].copy_from_slice(&seq.to_le_bytes());
    hdr[66..68].copy_from_slice(&1u16.to_le_bytes());
    hdr[68..72].copy_from_slice(&log_length.to_le_bytes());
    let crc = crc32c(&hdr);
    hdr[4..8].copy_from_slice(&crc.to_le_bytes());
    img[off..off + 4096].copy_from_slice(&hdr);
}

fn write_region_table(img: &mut [u8], off: usize) {
    let mut tbl = vec![0u8; 64 * 1024];
    tbl[0..4].copy_from_slice(b"regi");
    tbl[8..12].copy_from_slice(&2u32.to_le_bytes());
    let base = 16usize;
    tbl[base..base + 16].copy_from_slice(&REGION_BAT);
    tbl[base + 16..base + 24].copy_from_slice(&0x20_0000u64.to_le_bytes());
    tbl[base + 24..base + 28].copy_from_slice(&(1u32 << 20).to_le_bytes());
    tbl[base + 28..base + 32].copy_from_slice(&1u32.to_le_bytes());
    let base = 16 + 32;
    tbl[base..base + 16].copy_from_slice(&REGION_METADATA);
    tbl[base + 16..base + 24].copy_from_slice(&0x10_0000u64.to_le_bytes());
    tbl[base + 24..base + 28].copy_from_slice(&(1u32 << 20).to_le_bytes());
    tbl[base + 28..base + 32].copy_from_slice(&1u32.to_le_bytes());
    let crc = crc32c(&tbl);
    tbl[4..8].copy_from_slice(&crc.to_le_bytes());
    img[off..off + 64 * 1024].copy_from_slice(&tbl);
}

fn write_metadata_region(img: &mut [u8], off: usize) {
    img[off..off + 8].copy_from_slice(b"metadata");
    img[off + 10..off + 12].copy_from_slice(&3u16.to_le_bytes());
    let item_area: u32 = 128;
    let mut next_off = item_area;
    let e0 = off + 32;
    img[e0..e0 + 16].copy_from_slice(&META_FILE_PARAMETERS);
    img[e0 + 16..e0 + 20].copy_from_slice(&next_off.to_le_bytes());
    img[e0 + 20..e0 + 24].copy_from_slice(&8u32.to_le_bytes());
    let i0 = off + next_off as usize;
    img[i0..i0 + 4].copy_from_slice(&(1u32 << 20).to_le_bytes());
    img[i0 + 4..i0 + 8].copy_from_slice(&0u32.to_le_bytes());
    next_off += 8;
    let e1 = off + 32 + 32;
    img[e1..e1 + 16].copy_from_slice(&META_VIRTUAL_DISK_SIZE);
    img[e1 + 16..e1 + 20].copy_from_slice(&next_off.to_le_bytes());
    img[e1 + 20..e1 + 24].copy_from_slice(&8u32.to_le_bytes());
    let i1 = off + next_off as usize;
    img[i1..i1 + 8].copy_from_slice(&(1u64 << 20).to_le_bytes());
    next_off += 8;
    let e2 = off + 32 + 64;
    img[e2..e2 + 16].copy_from_slice(&META_LOGICAL_SECTOR_SIZE);
    img[e2 + 16..e2 + 20].copy_from_slice(&next_off.to_le_bytes());
    img[e2 + 20..e2 + 24].copy_from_slice(&4u32.to_le_bytes());
    let i2 = off + next_off as usize;
    img[i2..i2 + 4].copy_from_slice(&512u32.to_le_bytes());
}

fn vhdx_fault(at: usize, bytes: &[u8]) -> CelError {
    let mut f = synth_vhdx_dynamic();
    f[at..at + bytes.len()].copy_from_slice(bytes);
    VhdxImage::open("x", f).unwrap_err()
}

#[test]
fn opens_synthetic_vhdx_and_reports_info() {
    let img = VhdxImage::open("x", synth_vhdx_dynamic()).unwrap();
    let info = img.info();
    assert_eq!(info.format, FormatKind::Vhdx);
    assert_eq!(info.virtual_size, 1 << 20);
    assert_eq!(info.cluster_size, Some(1 << 20));
    assert_eq!(info.backend, "vhdx-dynamic");
}

#[test]
fn reads_fully_present_block() {
    let img = VhdxImage::open("x", synth_vhdx_dynamic()).unwrap();
    let mut buf = [0u8; 64];
    let n = img.read_at(0, &mut buf).unwrap();
    assert_eq!(n, 64);
    assert!(buf.iter().all(|&b| b == 0x5A));
}

#[test]
fn vhdx_read_clips_at_virtual_size() {
    let img = VhdxImage::open("x", synth_vhdx_dynamic()).unwrap();
    let mut buf = [0u8; 100];
    let n = img.read_at(img.virtual_size() - 10, &mut buf).unwrap();
    assert_eq!(n, 10);
}

#[test]
fn rejects_corrupt_header_crc() {
    let mut img = synth_vhdx_dynamic();
    img[HEADER1_OFF as usize + 4] ^= 0xFF;
    img[HEADER2_OFF as usize + 5] ^= 0xFF;
    let Err(err) = VhdxImage::open("x", img) else { panic!("bad header CRC must be rejected") };
    assert_eq!(err.code(), "invalid");
}

#[test]
fn rejects_bad_file_identifier() {
    let mut img = synth_vhdx_dynamic();
    img[0..8].copy_from_slice(b"notvhdxx");
    let Err(err) = VhdxImage::open("x", img) else { panic!("bad fileid must be rejected") };
    assert_eq!(err.code(), "invalid");
}

#[test]
fn vhdx_takes_the_newer_header() {
    let mut img = synth_vhdx_dynamic();
    write_header(&mut img, HEADER2_OFF as usize, 2, 4096);
    assert_eq!(
        VhdxImage::open("x", img).unwrap_err(),
        CelError::Invalid("vhdx: non-empty log not supported (replay journal first)")
    );
    // The newer header is unusable, so the older one counts.
    let mut img = synth_vhdx_dynamic();
    write_header(&mut img, HEADER2_OFF as usize, 2, 4096);
    img[HEADER2_OFF as usize + 4] ^= 0xFF;
    assert!(VhdxImage::open("x", img).is_ok());
}

#[test]
fn vhdx_falls_back_to_the_second_region_table() {
    let mut img = synth_vhdx_dynamic();
    img[REGION_TABLE1_OFF as usize + 100] ^= 1;
    assert!(VhdxImage::open("x", img.clone()).is_ok());
    img[REGION_TABLE2_OFF as usize + 100] ^= 1;
    assert_eq!(
        VhdxImage::open("x", img).unwrap_err(),
        CelError::Invalid("vhdx: region CRC mismatch")
    );
}

#[test]
fn vhdx_refusals_name_their_reason() {
    assert_eq!(
        VhdxImage::open("x", b"vhdx".to_vec()).unwrap_err(),
        CelError::Io("read fileid: failed to fill whole buffer".to_string())
    );
    let meta = 0x10_0000usize;
    assert_eq!(
        vhdx_fault(meta, b"M"),
        CelError::Invalid("vhdx: metadata signature mismatch")
    );
    assert_eq!(
        vhdx_fault(meta + 10, &0u16.to_le_bytes()),
        CelError::Invalid("vhdx: metadata entry count out of range")
    );
    assert_eq!(
        vhdx_fault(meta + 32 + 20, &0u32.to_le_bytes()),
        CelError::Invalid("vhdx: metadata item length out of range")
    );
    assert_eq!(
        vhdx_fault(meta + 32 + 16, &0x7fff_ffffu32.to_le_bytes()),
        CelError::Io("read meta item: failed to fill whole buffer".to_string())
    );
    assert_eq!(
        vhdx_fault(meta + 32 + 20, &4u32.to_le_bytes()),
        CelError::Invalid("vhdx: file_parameters short")
    );
    assert_eq!(
        vhdx_fault(meta + 64 + 20, &4u32.to_le_bytes()),
        CelError::Invalid("vhdx: virtual_disk_size short")
    );
    assert_eq!(
        vhdx_fault(meta + 96 + 20, &2u32.to_le_bytes()),
        CelError::Invalid("vhdx: logical_sector_size short")
    );
    assert_eq!(
        vhdx_fault(meta + 32, &[0u8]),
        CelError::Invalid("vhdx: FileParameters missing")
    );
    assert_eq!(
        vhdx_fault(meta + 64, &[0u8]),
        CelError::Invalid("vhdx: VirtualDiskSize missing")
    );
    assert_eq!(
        vhdx_fault(meta + 96, &[0u8]),
        CelError::Invalid("vhdx: LogicalSectorSize missing")
    );
    assert_eq!(
        vhdx_fault(meta + 132, &2u32.to_le_bytes()),
        CelError::Invalid("vhdx: differencing images (HasParent) not supported")
    );
    assert_eq!(
        vhdx_fault(meta + 128, &1000u32.to_le_bytes()),
        CelError::Invalid("vhdx: block_size must be a multiple of 1 MB")
    );
    assert_eq!(
        vhdx_fault(meta + 144, &1024u32.to_le_bytes()),
        CelError::Invalid("vhdx: logical_sector_size must be 512 or 4096")
    );
    assert_eq!(
        vhdx_fault(meta + 136, &(1u64 << 40).to_le_bytes()),
        CelError::Invalid("vhdx: BAT region too small for declared virtual size")
    );
}

#[test]
fn vhdx_block_states_decide_reads() {
    let bat = 0x20_0000usize;
    let mut buf = [9u8; 8];
    for state in 0..4u64 {
        let mut f = synth_vhdx_dynamic();
        f[bat..bat + 8].copy_from_slice(&(0x30_0000 | state).to_le_bytes());
        let img = VhdxImage::open("x", f).unwrap();
        assert_eq!(img.read_at(0, &mut buf).unwrap(), 8);
        assert_eq!(buf, [0u8; 8]);
    }
    let cases: [(u64, CelError); 5] = [
        (
            0x7FFF_FFFF_FFE0_0006,
            CelError::Storage("read vhdx block: failed to fill whole buffer".to_string()),
        ),
        (4, CelError::Invalid("vhdx: unknown BAT state")),
        (5, CelError::Invalid("vhdx: unknown BAT state")),
        (7, CelError::Invalid("vhdx: partially-present block (differencing) not supported")),
        (
            0xFFFF_FFFF_FFF0_0006,
            CelError::Io("seek vhdx block: Invalid argument (os error 22)".to_string()),
        ),
    ];
    for (entry, want) in cases {
        let mut f = synth_vhdx_dynamic();
        f[bat..bat + 8].copy_from_slice(&entry.to_le_bytes());
        let img = VhdxImage::open("x", f).unwrap();
        assert_eq!(img.read_at(16, &mut buf).unwrap_err(), want);
    }
}

#[test]
fn vhdx_fixed_images_are_served() {
    let mut f = synth_vhdx_dynamic();
    f[0x10_0000 + 132..0x10_0000 + 136].copy_from_slice(&1u32.to_le_bytes());
    let img = VhdxImage::open("x", f).unwrap();
    assert!(img.is_fixed());
    assert_eq!(img.logical_sector_size(), 512);
    assert_eq!(img.path(), "x");
    assert_eq!(img.info().backend, "vhdx-fixed");
}

#[test]
fn vhdx_reads_cross_blocks() {
    let mut f = synth_vhdx_dynamic();
    f[0x10_0000 + 136..0x10_0000 + 144].copy_from_slice(&(2u64 << 20).to_le_bytes());
    let img = VhdxImage::open("x", f).unwrap();
    let mut buf = [9u8; 32];
    assert_eq!(img.read_at((1 << 20) - 16, &mut buf).unwrap(), 32);
    assert_eq!(&buf[..16], &[0x5A; 16]);
    assert_eq!(&buf[16..], &[0u8; 16]);
}

#[test]
fn a_failed_read_keeps_what_it_had_read() {
    let mut f = synth_vmdk_monolithic_sparse();
    f[1028..1032].copy_from_slice(&500u32.to_le_bytes());
    let img = VmdkImage::open("v", f).unwrap();
    let fault = CelError::Storage("read grain: failed to fill whole buffer".to_string());
    let mut buf = [9u8; 32];
    assert_eq!(img.read_at(4080, &mut buf).unwrap_err(), fault);
    assert_eq!(&buf[..16], &[0xAB; 16]);
    assert_eq!(&buf[16..], &[9u8; 16]);
    let mut exact = [9u8; 32];
    assert_eq!(img.read_exact_at(4080, &mut exact).unwrap_err(), fault);
    assert_eq!(exact, buf);
    let (got, why) = img.gather(4080, 32);
    assert_eq!(got, vec![0xAB; 16]);
    assert_eq!(why, Some(fault));
    assert_eq!(img.read(4080, 8).unwrap(), vec![0xAB; 8]);
}

#[test]
fn tables_past_every_file_are_seek_failures() {
    let far = 0x8000_0000_0000_0000u64;
    assert_eq!(
        qcow2_fault(40, &far.to_be_bytes()),
        CelError::Io("seek l1 q: Invalid argument (os error 22)".to_string())
    );
    assert_eq!(
        vmdk_fault(56, &(far / 512).to_le_bytes()),
        CelError::Io("seek gd v: Invalid argument (os error 22)".to_string())
    );
    assert_eq!(
        vmdk_fault(56, &(far / 512 - 1).to_le_bytes()),
        CelError::Storage("read gd v: failed to fill whole buffer".to_string())
    );
    for (entry, what) in [(16usize, "seek bat"), (48, "seek metadata")] {
        let mut f = synth_vhdx_dynamic();
        for table in [REGION_TABLE1_OFF as usize, REGION_TABLE2_OFF as usize] {
            let at = table + entry + 16;
            f[at..at + 8].copy_from_slice(&far.to_le_bytes());
            f[table + 4..table + 8].copy_from_slice(&[0u8; 4]);
            let crc = crc32c(&f[table..table + 64 * 1024]);
            f[table + 4..table + 8].copy_from_slice(&crc.to_le_bytes());
        }
        assert_eq!(
            VhdxImage::open("x", f).unwrap_err(),
            CelError::Io(format!("{what}: Invalid argument (os error 22)"))
        );
    }
}

// --- any format --------------------------------------------------------------

#[test]
fn open_raw_via_public_api() {
    let img = open("r", vec![7u8; 512]).unwrap();
    let info = img.info();
    assert_eq!(info.format, FormatKind::Raw);
    assert_eq!(info.virtual_size, 512);
    let mut buf = [0u8; 16];
    let n = img.read_at(0, &mut buf).unwrap();
    assert_eq!(n, 16);
    assert!(buf.iter().all(|&b| b == 7));
}

#[test]
fn inspect_rejects_malformed_vmdk_with_invalid() {
    let mut f = b"KDMV".to_vec();
    f.extend_from_slice(&[0u8; 512]);
    let Err(err) = inspect("v", f) else { panic!("malformed vmdk must be rejected") };
    assert_eq!(err.code(), "invalid");
}

#[test]
fn inspect_rejects_malformed_vhdx_with_invalid() {
    let mut f = b"vhdxfile".to_vec();
    f.extend_from_slice(&[0u8; 512]);
    let Err(err) = inspect("x", f) else { panic!("malformed vhdx must be rejected") };
    assert_eq!(err.code(), "invalid");
}

#[test]
fn full_image_crc32c_matches_oneshot_over_raw() {
    let bytes: Vec<u8> = (0..200_000u32).map(|i| (i & 0xff) as u8).collect();
    let img = open("r", bytes.clone()).unwrap();
    let streamed = full_image_crc32c(&img).unwrap();
    assert_eq!(streamed, crc32c(&bytes));
}

#[test]
fn open_reaches_every_reader() {
    assert!(matches!(open("q", synth_qcow2_v3()).unwrap(), AnyImage::Qcow2(_)));
    assert!(matches!(open("v", synth_vmdk_monolithic_sparse()).unwrap(), AnyImage::Vmdk(_)));
    assert!(matches!(open("x", synth_vhdx_dynamic()).unwrap(), AnyImage::Vhdx(_)));
    assert_eq!(open("e", Vec::new()).unwrap_err(), CelError::Invalid("image is empty"));
    assert_eq!(inspect("q", synth_qcow2_v3()).unwrap().backend, "qcow2-v3");
}

#[test]
fn checksums_do_not_depend_on_the_format() {
    let mut plain = vec![0x42u8; 65_536];
    plain.extend_from_slice(&[0u8; 65_536]);
    let raw = RawImage::open("r", plain.clone()).unwrap();
    let qcow2 = Qcow2Image::open("q", synth_qcow2_v3()).unwrap();
    assert_eq!(full_image_crc32c(&raw).unwrap(), full_image_crc32c(&qcow2).unwrap());
    assert_eq!(full_image_crc32c(&qcow2).unwrap(), crc32c(&plain));

    let mut plain = vec![0xABu8; 4096];
    plain.extend_from_slice(&[0u8; 4096]);
    let vmdk = VmdkImage::open("v", synth_vmdk_monolithic_sparse()).unwrap();
    assert_eq!(full_image_crc32c(&vmdk).unwrap(), crc32c(&plain));

    let vhdx = VhdxImage::open("x", synth_vhdx_dynamic()).unwrap();
    assert_eq!(full_image_crc32c(&vhdx).unwrap(), crc32c(&vec![0x5Au8; 1 << 20]));
}

#[test]
fn checksum_faults() {
    let none = RawImage::open("r", Vec::new()).unwrap();
    assert_eq!(
        full_image_crc32c(&none).unwrap_err(),
        CelError::Invalid("full_image_crc32c: virtual size is zero")
    );
    // The data cluster stands past the end of the file.
    let mut f = synth_qcow2_v3();
    f[2 * 65_536..2 * 65_536 + 8].copy_from_slice(&0x100_0000u64.to_be_bytes());
    let img = Qcow2Image::open("q", f).unwrap();
    assert_eq!(
        full_image_crc32c(&img).unwrap_err(),
        CelError::Invalid("full_image_crc32c: short read before virtual_size")
    );
}
