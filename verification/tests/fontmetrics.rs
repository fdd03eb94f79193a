use fuide::fontmetrics::{i16_at, line_metrics_units, u16_at, u32_at, UnitMetrics};

#[test]
fn rejects_garbage() {
    assert!(line_metrics_units(b"not a font", 0).is_none());
    assert!(line_metrics_units(b"ttcf\0\0\0\x01\0\0\0\x01", 5).is_none()); // ttc index out of range
}

#[test]
fn big_endian_readers() {
    let d = [0x12, 0x34, 0xff, 0xfe, 0x00, 0x01];
    assert_eq!(u16_at(&d, 0), Some(0x1234));
    assert_eq!(i16_at(&d, 2), Some(-2));
    assert_eq!(u32_at(&d, 2), Some(0xfffe_0001));
    assert_eq!(u16_at(&d, 5), None);
    assert_eq!(u32_at(&d, 3), None);
}

fn be16(v: &mut Vec<u8>, x: u16) {
    v.extend_from_slice(&x.to_be_bytes());
}

/// A font with `head`, `hhea` and (optionally) `OS/2` tables, at `pad` bytes into the file.
fn font(hhea: [i16; 3], os2: Option<(bool, [i16; 3], [u16; 2])>, pad: usize) -> Vec<u8> {
    let n: u16 = if os2.is_some() { 3 } else { 2 };
    let dir_len = 12 + 16 * n as usize;
    let head_at = pad + dir_len;
    let hhea_at = head_at + 54;
    let os2_at = hhea_at + 36;
    let mut v = vec![0u8; pad];
    v.extend_from_slice(&[0, 1, 0, 0]);
    be16(&mut v, n);
    v.extend_from_slice(&[0; 6]);
    let mut rec = |v: &mut Vec<u8>, tag: &[u8; 4], at: usize, len: u32| {
        v.extend_from_slice(tag);
        v.extend_from_slice(&[0; 4]);
        v.extend_from_slice(&(at as u32).to_be_bytes());
        v.extend_from_slice(&len.to_be_bytes());
    };
    rec(&mut v, b"head", head_at, 54);
    rec(&mut v, b"hhea", hhea_at, 36);
    if os2.is_some() {
        rec(&mut v, b"OS/2", os2_at, 96);
    }
    let mut head = vec![0u8; 54];
    head[18..20].copy_from_slice(&1000u16.to_be_bytes());
    v.extend_from_slice(&head);
    let mut hh = vec![0u8; 36];
    for (k, x) in hhea.iter().enumerate() {
        hh[4 + 2 * k..6 + 2 * k].copy_from_slice(&x.to_be_bytes());
    }
    v.extend_from_slice(&hh);
    if let Some((typo_flag, typo, win)) = os2 {
        let mut o = vec![0u8; 96];
        if typo_flag {
            o[63] = 1 << 7;
        }
        for (k, x) in typo.iter().enumerate() {
            o[68 + 2 * k..70 + 2 * k].copy_from_slice(&x.to_be_bytes());
        }
        o[74..76].copy_from_slice(&win[0].to_be_bytes());
        o[76..78].copy_from_slice(&win[1].to_be_bytes());
        v.extend_from_slice(&o);
    }
    v
}

#[test]
fn typo_metrics_win_when_flagged() {
    let f = font([800, -200, 0], Some((true, [900, -250, 50], [1000, 300])), 0);
    assert_eq!(
        line_metrics_units(&f, 0),
        Some(UnitMetrics { ascent: 900, descent: -250, line_gap: 50, upem: 1000 })
    );
}

#[test]
fn hhea_is_used_unless_typo_is_flagged_and_win_is_the_last_resort() {
    let f = font([800, -200, 10], Some((false, [900, -250, 50], [1000, 300])), 0);
    assert_eq!(
        line_metrics_units(&f, 0),
        Some(UnitMetrics { ascent: 800, descent: -200, line_gap: 10, upem: 1000 })
    );
    let f = font([0, 0, 0], Some((false, [900, -250, 50], [1000, 300])), 0);
    assert_eq!(
        line_metrics_units(&f, 0),
        Some(UnitMetrics { ascent: 1000, descent: -300, line_gap: 0, upem: 1000 })
    );
    let f = font([0, 0, 7], None, 0);
    assert_eq!(
        line_metrics_units(&f, 0),
        Some(UnitMetrics { ascent: 0, descent: 0, line_gap: 7, upem: 1000 })
    );
}

#[test]
fn collections_pick_the_face_by_index() {
    let face = font([700, -300, 0], None, 0);
    // a ttc header of 16 bytes pointing at one face placed right after it
    let mut ttc = b"ttcf\0\x01\0\0\0\0\0\x01\0\0\0\x10".to_vec();
    let placed = font([700, -300, 0], None, 16);
    ttc.extend_from_slice(&placed[16..]);
    assert_eq!(line_metrics_units(&ttc, 0), line_metrics_units(&face, 0));
    assert_eq!(line_metrics_units(&ttc, 1), None);
}
