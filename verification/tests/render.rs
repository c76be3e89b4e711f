use building_automation::evaluation::{Bucket, Report};

#[test]
fn report_text_has_four_sections() {
    let report = Report {
        baseline_class_0: 136_986,
        baseline_class_1: 273_972,
        mean_room: Some(44_444),
        mean_sub_room: None,
        rooms: vec![
            Bucket { location: "RwnD0".to_string(), energy: 44_444 },
            Bucket { location: "RwnD1".to_string(), energy: 12_000_000 },
        ],
        sub_rooms: vec![Bucket { location: "RwnD0_RwD1_sub".to_string(), energy: 5 }],
    };
    assert_eq!(
        report.render(),
        "Energy consumption of all sensors of type 0 in Wh: 0.136986\n\
         Energy consumption of all sensors of type 1 in Wh: 0.273972\n\
         Average energy consumption of rooms in Wh: 0.044444\n\
         Average energy consumption of sub rooms in Wh: not applicable\n\n\
         Energy consumption per room in Wh: \n\tRwnD0: 0.044444\n\tRwnD1: 12.000000\
         \n\nEnergy consumption per sub room in Wh: \n\tRwnD0_RwD1_sub: 0.000005"
    );
}

#[test]
fn report_text_of_an_empty_report() {
    let report = Report {
        baseline_class_0: 0,
        baseline_class_1: 0,
        mean_room: None,
        mean_sub_room: None,
        rooms: Vec::new(),
        sub_rooms: Vec::new(),
    };
    assert_eq!(
        report.render(),
        "Energy consumption of all sensors of type 0 in Wh: 0.000000\n\
         Energy consumption of all sensors of type 1 in Wh: 0.000000\n\
         Average energy consumption of rooms in Wh: not applicable\n\
         Average energy consumption of sub rooms in Wh: not applicable\n\n\
         Energy consumption per room in Wh: \
         \n\nEnergy consumption per sub room in Wh: "
    );
}
