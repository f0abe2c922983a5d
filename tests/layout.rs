use bevy_tiled_display::{
    load_str, parse_events, Field, LoadError, SchemaFault, StereoChannel, TiledDisplay,
    TiledDisplayPlugin, XmlEvent,
};

fn tile_xml(name: &str, left: i32) -> String {
    format!(
        "<Tile><Name>{}</Name><StereoChannel>Left</StereoChannel>\
         <LeftOffset>{}</LeftOffset><TopOffset>0</TopOffset>\
         <WindowLeft>0</WindowLeft><WindowTop>0</WindowTop>\
         <WindowWidth>540</WindowWidth><WindowHeight>4096</WindowHeight></Tile>",
        name, left
    )
}

fn vvand20() -> String {
    let mut machines = String::new();
    for i in 1..=20 {
        machines.push_str(&format!(
            "\n  <Machine>\n    <Identity>keshiki{:02}</Identity>\n    <Tiles>{}</Tiles>\n  </Machine>",
            i,
            tile_xml(&format!("tile{:02}", i), (i - 1) * 540)
        ));
    }
    format!(
        "<?xml version=\"1.0\"?>\n<TiledDisplay>\n  <Name>VVand</Name>\n  <Width>10800</Width>\n  <Height>4096</Height>\n  <Machines>{}\n  </Machines>\n</TiledDisplay>\n",
        machines
    )
}

fn load(xml: &str) -> Result<TiledDisplay, LoadError> {
    load_str(xml)
}

fn schema_fault(xml: &str) -> SchemaFault {
    match load(xml) {
        Err(LoadError::Schema(f)) => f,
        other => panic!("expected a schema fault, got {:?}", other),
    }
}

#[test]
fn load_vvand20_xml() {
    let td = load(&vvand20()).expect("load xml");

    assert_eq!(td.name, "VVand");
    assert_eq!(td.width, 10800);
    assert_eq!(td.height, 4096);

    assert_eq!(td.machines.len(), 20);
    assert_eq!(td.machines.first().unwrap().identity, "keshiki01");
    assert_eq!(td.machines.last().unwrap().identity, "keshiki20");
}

#[test]
fn machines_and_tiles_keep_declaration_order() {
    let xml = format!(
        "<Layout><Name>L</Name><Width>100</Width><Height>50</Height><Machines>\
         <Machine><Identity>b</Identity><Tiles>{}{}</Tiles></Machine>\
         <Machine><Identity>a</Identity></Machine>\
         <Machine><Identity>c</Identity><Tiles>{}</Tiles></Machine>\
         </Machines></Layout>",
        tile_xml("b1", 0),
        tile_xml("b2", 10),
        tile_xml("c1", 20)
    );
    let td = load(&xml).unwrap();
    let ids: Vec<&str> = td.machines.iter().map(|m| m.identity.as_str()).collect();
    assert_eq!(ids, vec!["b", "a", "c"]);
    let counts: Vec<usize> = td.machines.iter().map(|m| m.tiles.len()).collect();
    assert_eq!(counts, vec![2, 0, 1]);
    assert_eq!(td.machines[0].tiles[0].name, "b1");
    assert_eq!(td.machines[0].tiles[1].name, "b2");
    assert_eq!(td.machines[0].tiles[1].left_offset, 10);
    assert_eq!(td.machines[0].tiles[0].window_height, 4096);
    assert_eq!(td.machines[0].tiles[0].stereo_channel, StereoChannel::Left);
}

#[test]
fn empty_machines_wrapper_equals_absent_wrapper() {
    let head = "<Layout><Name>L</Name><Width>100</Width><Height>50</Height>";
    for body in ["<Machines></Machines>", "<Machines/>", ""] {
        let td = load(&format!("{}{}</Layout>", head, body)).unwrap();
        assert_eq!(td.machines.len(), 0);
        assert_eq!(td.name, "L");
        assert_eq!((td.width, td.height), (100, 50));
    }
}

#[test]
fn fields_in_any_order_and_unknown_elements_skipped() {
    let xml = "<Layout><Extra><Deep>1</Deep></Extra><Height>7</Height><Machines>\
               <Machine><Note/><Identity>m</Identity></Machine></Machines>\
               <Width>+8</Width><Name>n</Name></Layout>";
    let td = load(xml).unwrap();
    assert_eq!((td.width, td.height), (8, 7));
    assert_eq!(td.machines[0].identity, "m");
}

#[test]
fn negative_offsets_and_right_channel() {
    let xml = "<Layout><Name>L</Name><Width>100</Width><Height>50</Height><Machines>\
               <Machine><Identity>m</Identity><Tiles><Tile><Name>t</Name>\
               <StereoChannel>Right</StereoChannel><LeftOffset>-2147483648</LeftOffset>\
               <TopOffset>-5</TopOffset><WindowLeft>-1920</WindowLeft><WindowTop>2147483647</WindowTop>\
               <WindowWidth>1</WindowWidth><WindowHeight>4294967295</WindowHeight></Tile></Tiles>\
               </Machine></Machines></Layout>";
    let td = load(xml).unwrap();
    let t = &td.machines[0].tiles[0];
    assert_eq!(t.stereo_channel, StereoChannel::Right);
    assert_eq!(t.left_offset, i32::MIN);
    assert_eq!(t.top_offset, -5);
    assert_eq!(t.window_left, -1920);
    assert_eq!(t.window_top, i32::MAX);
    assert_eq!(t.window_height, u32::MAX);
}

#[test]
fn missing_width_is_reported() {
    assert_eq!(
        schema_fault("<Layout><Name>L</Name><Height>50</Height></Layout>"),
        SchemaFault::MissingField(Field::Width)
    );
}

#[test]
fn non_numeric_width_is_reported() {
    assert_eq!(
        schema_fault("<Layout><Name>L</Name><Width>wide</Width><Height>50</Height></Layout>"),
        SchemaFault::InvalidValue(Field::Width)
    );
    assert_eq!(
        schema_fault("<Layout><Name>L</Name><Width>4294967296</Width><Height>50</Height></Layout>"),
        SchemaFault::InvalidValue(Field::Width)
    );
}

#[test]
fn zero_height_is_reported() {
    assert_eq!(
        schema_fault("<Layout><Name>L</Name><Width>1</Width><Height>0</Height></Layout>"),
        SchemaFault::InvalidValue(Field::Height)
    );
}

#[test]
fn bad_channel_is_reported() {
    let xml = "<Layout><Name>L</Name><Width>1</Width><Height>1</Height><Machines><Machine>\
               <Identity>m</Identity><Tiles><Tile><StereoChannel>Both</StereoChannel></Tile></Tiles>\
               </Machine></Machines></Layout>";
    assert_eq!(schema_fault(xml), SchemaFault::InvalidValue(Field::StereoChannel));
}

#[test]
fn incomplete_tile_is_reported() {
    let xml = "<Layout><Name>L</Name><Width>1</Width><Height>1</Height><Machines><Machine>\
               <Identity>m</Identity><Tiles><Tile><Name>t</Name></Tile></Tiles>\
               </Machine></Machines></Layout>";
    assert_eq!(schema_fault(xml), SchemaFault::MissingField(Field::StereoChannel));
}

#[test]
fn machine_without_identity_is_reported() {
    let xml = "<Layout><Name>L</Name><Width>1</Width><Height>1</Height><Machines><Machine/>\
               </Machines></Layout>";
    assert_eq!(schema_fault(xml), SchemaFault::MissingField(Field::Identity));
}

#[test]
fn duplicate_field_is_reported() {
    assert_eq!(
        schema_fault("<Layout><Name>L</Name><Name>M</Name><Width>1</Width><Height>1</Height></Layout>"),
        SchemaFault::DuplicateField(Field::DisplayName)
    );
}

#[test]
fn two_texts_in_a_field_are_reported() {
    assert_eq!(
        schema_fault("<Layout><Name>a<!-- c -->b</Name><Width>1</Width><Height>1</Height></Layout>"),
        SchemaFault::UnexpectedText(Field::DisplayName)
    );
}

#[test]
fn malformed_document_is_reported() {
    assert_eq!(
        schema_fault("<Layout><Name>L</Wrong></Layout>"),
        SchemaFault::Malformed
    );
}

#[test]
fn truncated_document_is_reported() {
    assert_eq!(schema_fault("<Layout><Name>L</Name>"), SchemaFault::Truncated);
    assert_eq!(schema_fault(""), SchemaFault::Truncated);
}

#[test]
fn second_root_is_reported() {
    assert_eq!(
        schema_fault("<Layout><Name>L</Name><Width>1</Width><Height>1</Height></Layout><Again/>"),
        SchemaFault::TrailingContent
    );
}

#[test]
fn entities_in_text_are_resolved() {
    let td = load("<L><Name>a &amp; b</Name><Width>1</Width><Height>1</Height></L>").unwrap();
    assert_eq!(td.name, "a & b");
}

#[test]
fn parse_events_builds_layout() {
    let evs = vec![
        XmlEvent::Start("Root".to_string()),
        XmlEvent::Start("Name".to_string()),
        XmlEvent::Text("N".to_string()),
        XmlEvent::End("Name".to_string()),
        XmlEvent::Empty("Machines".to_string()),
        XmlEvent::Start("Width".to_string()),
        XmlEvent::Text("3".to_string()),
        XmlEvent::End("Width".to_string()),
        XmlEvent::Start("Height".to_string()),
        XmlEvent::Text("4".to_string()),
        XmlEvent::End("Height".to_string()),
        XmlEvent::End("Root".to_string()),
    ];
    let td = parse_events(&evs).unwrap();
    assert_eq!((td.name.as_str(), td.width, td.height), ("N", 3, 4));
    assert!(td.machines.is_empty());
}

#[test]
fn select_tile_picks_first_tile_of_matching_machine() {
    let td = load(&vvand20()).unwrap();
    let t = TiledDisplayPlugin::select_tile(&td, "keshiki05").expect("tile");
    assert_eq!(t.name, "tile05");
    assert_eq!(t.left_offset, 4 * 540);
    assert!(TiledDisplayPlugin::select_tile(&td, "unknown-host").is_none());
    assert!(TiledDisplayPlugin::select_tile(&td, "KESHIKI05").is_none());
}

#[test]
fn select_tile_first_match_wins_and_empty_machine_gives_none() {
    let xml = format!(
        "<Layout><Name>L</Name><Width>100</Width><Height>50</Height><Machines>\
         <Machine><Identity>x</Identity><Tiles>{}{}</Tiles></Machine>\
         <Machine><Identity>x</Identity><Tiles>{}</Tiles></Machine>\
         <Machine><Identity>spare</Identity></Machine>\
         </Machines></Layout>",
        tile_xml("first", 0),
        tile_xml("second", 1),
        tile_xml("third", 2)
    );
    let td = load(&xml).unwrap();
    assert_eq!(TiledDisplayPlugin::select_tile(&td, "x").unwrap().name, "first");
    assert!(TiledDisplayPlugin::select_tile(&td, "spare").is_none());
}

#[test]
fn unknown_entity_is_malformed() {
    assert_eq!(
        schema_fault("<L><Name>&nosuch;</Name><Width>1</Width><Height>1</Height></L>"),
        SchemaFault::Malformed
    );
}

#[test]
fn comments_and_declarations_are_ignored() {
    let td = load("<?xml version=\"1.0\"?><!-- c --><L><Name>n</Name><!-- d --><Width>2</Width><Height>3</Height></L>")
        .unwrap();
    assert_eq!((td.name.as_str(), td.width, td.height), ("n", 2, 3));
}
