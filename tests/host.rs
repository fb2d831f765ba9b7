use hyper_function_core::codec::{
    JsonConfig, JsonConfigDev, JsonConfigPackage, JsonConfigPackageModule,
    JsonConfigPackageModuleHfn, JsonConfigPackageModuleModel, JsonConfigPackageRpc,
    JsonConfigPackageSchema, JsonConfigPackageSchemaField,
};
use hyper_function_core::socket::Action;
use hyper_function_core::{choose_config_path, choose_upstream_id, read, send_message, Route};

#[test]
fn send_message_routes() {
    assert!(matches!(send_message(true, true, "a".to_string(), vec![1]), Route::Uplink { .. }));
    match send_message(false, true, "a".to_string(), vec![1, 2]) {
        Route::Local(Action::SendMessage(m)) => assert_eq!(m.payload, vec![1, 2]),
        _ => panic!("expected the local route"),
    }
    assert!(matches!(send_message(false, false, "a".to_string(), vec![1]), Route::Dropped));
}

#[test]
fn read_hands_over_bytes() {
    assert_eq!(read(Some(vec![4, 5])), vec![4, 5]);
    assert_eq!(read(None), Vec::<u8>::new());
}

#[test]
fn config_path_order() {
    assert_eq!(choose_config_path(Some("/env".to_string()), Some("/arg".to_string())), Some("/env".to_string()));
    assert_eq!(choose_config_path(None, Some("/arg".to_string())), Some("/arg".to_string()));
    assert_eq!(choose_config_path(None, None), None);
    assert_eq!(choose_upstream_id(Some("given".to_string()), "fresh".to_string()), "given");
    assert_eq!(choose_upstream_id(None, "fresh".to_string()), "fresh");
}

fn sample() -> JsonConfig {
    let module = |id: u32, models: Vec<u32>, hfns: Vec<u32>| JsonConfigPackageModule {
        id,
        name: format!("m{}", id),
        models: models
            .into_iter()
            .map(|m| JsonConfigPackageModuleModel { id: m, name: format!("model{}", m), schema_id: m + 100 })
            .collect(),
        hfns: hfns
            .into_iter()
            .map(|h| JsonConfigPackageModuleHfn { id: h, name: format!("hfn{}", h), schema_id: h + 200 })
            .collect(),
    };
    JsonConfig {
        name: "app".to_string(),
        description: None,
        appid: "app1".to_string(),
        dev: JsonConfigDev { devtools: "ws://localhost".to_string() },
        created_at: "now".to_string(),
        packages: vec![
            JsonConfigPackage {
                id: 1,
                name: "alpha".to_string(),
                full_name: Some("pkg one".to_string()),
                modules: vec![module(11, vec![1, 2], vec![3]), module(12, vec![4], vec![])],
                schemas: vec![JsonConfigPackageSchema {
                    id: 21,
                    fields: vec![
                        JsonConfigPackageSchemaField { id: 31, name: "f".to_string(), t: "string".to_string(), is_array: false },
                        JsonConfigPackageSchemaField { id: 32, name: "g".to_string(), t: "int".to_string(), is_array: true },
                    ],
                }],
                rpcs: vec![JsonConfigPackageRpc { id: 41, name: "call".to_string(), req_schema_id: 21, res_schema_id: 22 }],
            },
            JsonConfigPackage {
                id: 2,
                name: "beta".to_string(),
                full_name: None,
                modules: vec![module(13, vec![], vec![5, 6])],
                schemas: vec![JsonConfigPackageSchema { id: 22, fields: vec![] }],
                rpcs: vec![],
            },
        ],
    }
}

#[test]
fn projection_flattens_in_order() {
    let (packages, modules, models, hfns, rpcs, schemas, fields) = sample().to_hfn_struct();
    assert_eq!(packages.iter().map(|p| p.id).collect::<Vec<_>>(), vec![1, 2]);
    assert_eq!(packages[0].full_name.as_deref(), Some("pkg one"));
    assert_eq!(packages[1].full_name, None);
    assert_eq!(modules.iter().map(|m| (m.id, m.package_id)).collect::<Vec<_>>(), vec![(11, 1), (12, 1), (13, 2)]);
    assert_eq!(
        models.iter().map(|m| (m.id, m.schema_id, m.package_id, m.module_id)).collect::<Vec<_>>(),
        vec![(1, 101, 1, 11), (2, 102, 1, 11), (4, 104, 1, 12)]
    );
    assert_eq!(models[0].name, "model1");
    assert_eq!(
        hfns.iter().map(|h| (h.id, h.schema_id, h.package_id, h.module_id)).collect::<Vec<_>>(),
        vec![(3, 203, 1, 11), (5, 205, 2, 13), (6, 206, 2, 13)]
    );
    assert_eq!(rpcs.len(), 1);
    assert_eq!((rpcs[0].id, rpcs[0].req_schema_id, rpcs[0].res_schema_id, rpcs[0].package_id), (41, 21, 22, 1));
    assert_eq!(schemas.iter().map(|s| (s.id, s.package_id)).collect::<Vec<_>>(), vec![(21, 1), (22, 2)]);
    assert_eq!(
        fields.iter().map(|f| (f.id, f.is_array, f.package_id, f.schema_id)).collect::<Vec<_>>(),
        vec![(31, false, 1, 21), (32, true, 1, 21)]
    );
    assert_eq!(fields[1].t, "int");
}

#[test]
fn empty_descriptor_projects_to_empty_lists() {
    let mut config = sample();
    config.packages.clear();
    let (packages, modules, models, hfns, rpcs, schemas, fields) = config.to_hfn_struct();
    assert!(packages.is_empty() && modules.is_empty() && models.is_empty() && hfns.is_empty());
    assert!(rpcs.is_empty() && schemas.is_empty() && fields.is_empty());
}

#[test]
fn two_sends_frame_in_call_order() {
    let mut frames = Vec::new();
    for payload in [vec![1u8], vec![2u8, 3u8]] {
        match send_message(false, true, "s".to_string(), payload) {
            Route::Local(action) => frames.push(action.frame().expect("a message has a frame")),
            _ => panic!("expected the local route"),
        }
    }
    assert_eq!(frames, vec![vec![0x08, 1], vec![0x08, 2, 3]]);
}
