//! Schedule-markup extraction: venue codes, grades, start dates and the
//! venue name table.

use bort_data::venues::{
    extract_grade_from_class, extract_start_date, extract_venue_code, get_venue_name_map,
    venue_statuses, RaceVenue,
};

#[test]
fn test_extract_venue_code() {
    assert_eq!(extract_venue_code("/owpc/pc/data/stadium?jcd=01"), Some(1));
    assert_eq!(
        extract_venue_code("/owpc/pc/race/raceindex?jcd=12&hd=20250914"),
        Some(12)
    );
    assert_eq!(
        extract_venue_code("/owpc/pc/race/assen?jcd=24&hd=20250915"),
        Some(24)
    );
    assert_eq!(extract_venue_code("invalid_url"), None);
}

#[test]
fn test_extract_grade_from_class() {
    assert_eq!(extract_grade_from_class(vec!["is-gradeColorSG"]), "SG");
    assert_eq!(extract_grade_from_class(vec!["is-gradeColorG1"]), "G1");
    assert_eq!(extract_grade_from_class(vec!["is-gradeColorIppan"]), "一般");
    assert_eq!(extract_grade_from_class(vec!["other-class"]), "一般");
}

#[test]
fn test_extract_start_date() {
    assert_eq!(
        extract_start_date("/owpc/pc/race/raceindex?jcd=01&hd=20250914"),
        Some("2025-09-14".to_string())
    );
    assert_eq!(
        extract_start_date("/owpc/pc/race/assen?jcd=12&hd=20251225"),
        Some("2025-12-25".to_string())
    );
    assert_eq!(extract_start_date("invalid_url"), None);
}

#[test]
fn test_venue_name_map() {
    let map = get_venue_name_map();
    assert_eq!(map.get(&1), Some(&"桐生".to_string()));
    assert_eq!(map.get(&24), Some(&"大村".to_string()));
    assert_eq!(map.get(&25), None);
}

#[test]
fn test_venue_statuses_active_flags() {
    let active = vec![RaceVenue {
        place_id: 12,
        place_name: "住之江".to_string(),
        races: (1..=12).collect(),
    }];
    let statuses = venue_statuses(&active);
    assert_eq!(statuses.len(), 24);
    for st in &statuses {
        if st.place_id == 12 {
            assert!(st.is_active);
            assert_eq!(st.races.len(), 12);
        } else {
            assert!(!st.is_active);
            assert!(st.races.is_empty());
        }
    }
    assert_eq!(statuses[0].place_name, "桐生");
}
