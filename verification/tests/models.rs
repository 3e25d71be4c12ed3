use clif_pad::catalog;
use clif_pad::hardware::{build_summary, cpu_brand, detect_gpu, GpuSummary};
use clif_pad::hf::{
    download_total, info_url, list_gguf_files, list_variants, model_info, parse_quant, resolve_gguf,
    resolve_url, search_models, search_query, token_value, tree_url, HfModelInfo, HfModelSummary,
    HubReply, ModelInfo, TreeItem,
};
use clif_pad::json::{self, Json};
use clif_pad::local_models::{
    catalog_entry, completion_limit, fit_rank, local_engine_generate, local_engine_status,
    local_model_delete, local_model_download, local_model_resolve, local_model_set_active,
    local_model_variants, local_models_catalog, local_models_list, FileOnDisk,
};
use clif_pad::logging;
use clif_pad::places::{Base, Place, Platform, Surroundings};
use clif_pad::scan::{
    is_model_file, ollama_name, pretty_name, read_manifest, scan, scan_gguf_dir, scan_ollama,
    store_dirs, DiscoveredModel, FoundBlob, FoundFile, Layout,
};
use clif_pad::state::AppState;
use clif_pad::store::{
    active_marker, model_dir, model_file_path, models_dir, read_active, sanitize, write_active,
    MarkerChange,
};
use clif_pad::watcher::{file_changes, should_ignore, ChangedPath, DiskEvent};

fn file(path: &str, size: u64, lfs: Option<u64>) -> TreeItem {
    TreeItem { kind: "file".to_string(), path: path.to_string(), size, lfs_size: lfs }
}

fn tree() -> HubReply<Vec<TreeItem>> {
    HubReply::Body(vec![
        file("z-Q8_0.GGUF", 10, Some(800)),
        file("README.md", 5, None),
        TreeItem { kind: "directory".to_string(), path: "d.gguf".to_string(), size: 0, lfs_size: None },
        file("a-q4_k_m.gguf", 20, Some(0)),
        file("b-q4_k_m-00001-of-00002.gguf", 1, Some(1)),
    ])
}

#[test]
fn urls_of_the_hub() {
    assert_eq!(
        resolve_url("/Qwen/M-GGUF/", "m.gguf"),
        "https://huggingface.co/Qwen/M-GGUF/resolve/main/m.gguf"
    );
    assert_eq!(
        tree_url("//r//"),
        "https://huggingface.co/api/models/r/tree/main?recursive=true&expand=true"
    );
    assert_eq!(info_url("a/b"), "https://huggingface.co/api/models/a/b");
    assert_eq!(resolve_url("///", "f"), "https://huggingface.co//resolve/main/f");
    let q = search_query("coder");
    assert_eq!(q[0], ("search".to_string(), "coder".to_string()));
    assert_eq!(q[4], ("limit".to_string(), "24".to_string()));
}

#[test]
fn tokens_are_sent_where_there_is_one() {
    assert_eq!(token_value(Some("t"), Some("e")), Some("t".to_string()));
    assert_eq!(token_value(None, Some("e")), Some("e".to_string()));
    assert_eq!(token_value(Some(""), Some("e")), None);
    assert_eq!(token_value(None, None), None);
}

#[test]
fn quantizations_are_read_off_names() {
    assert_eq!(parse_quant("model-q4_k_m.gguf"), "Q4_K_M");
    assert_eq!(parse_quant("Model-Q4_K_S.GGUF"), "Q4_K_S");
    assert_eq!(parse_quant("x-IQ2_XXS.gguf"), "IQ2_XXS");
    assert_eq!(parse_quant("x-bf16.gguf"), "BF16");
    assert_eq!(parse_quant("x-q6_k.gguf"), "Q6_K");
    assert_eq!(parse_quant("plain.gguf"), "GGUF");
}

#[test]
fn weights_are_listed_by_name_with_their_real_size() {
    let files = list_gguf_files("r", tree()).unwrap();
    let seen: Vec<(&str, u64)> = files.iter().map(|f| (f.filename.as_str(), f.size_bytes)).collect();
    assert_eq!(
        seen,
        vec![("a-q4_k_m.gguf", 20), ("b-q4_k_m-00001-of-00002.gguf", 1), ("z-Q8_0.GGUF", 800)]
    );
}

#[test]
fn variants_come_smallest_first_and_whole() {
    let v = list_variants("r", tree()).unwrap();
    let seen: Vec<(&str, &str)> = v.iter().map(|f| (f.filename.as_str(), f.quant.as_str())).collect();
    assert_eq!(seen, vec![("a-q4_k_m.gguf", "Q4_K_M"), ("z-Q8_0.GGUF", "Q8_0")]);
}

#[test]
fn the_wanted_quantization_is_downloaded() {
    assert_eq!(resolve_gguf("r", "q8_0", tree()).unwrap().filename, "z-Q8_0.GGUF");
    assert_eq!(resolve_gguf("r", "Q4_K_M", tree()).unwrap().filename, "a-q4_k_m.gguf");
    assert_eq!(resolve_gguf("r", "F64", tree()).unwrap().filename, "a-q4_k_m.gguf");
    assert_eq!(
        resolve_gguf("r", "Q4", HubReply::Body(vec![])).unwrap_err(),
        "no GGUF files found in 'r'"
    );
    let parts = HubReply::Body(vec![file("m-00001-of-00002.gguf", 1, None)]);
    assert_eq!(resolve_gguf("r", "Q4", parts).unwrap().filename, "m-00001-of-00002.gguf");
}

#[test]
fn errors_of_the_hub() {
    assert_eq!(
        list_gguf_files("r", HubReply::Unsent("down".into())).unwrap_err(),
        "HF request failed: down"
    );
    assert_eq!(
        list_gguf_files("r", HubReply::Status("404 Not Found".into())).unwrap_err(),
        "Hugging Face API returned HTTP 404 Not Found for repo 'r'"
    );
    assert_eq!(
        list_variants("r", HubReply::Unreadable("eof".into())).unwrap_err(),
        "parse HF tree: eof"
    );
    assert_eq!(
        model_info("r", HubReply::Status("500".into())).unwrap_err(),
        "HF info HTTP 500 for 'r'"
    );
    assert_eq!(model_info("r", HubReply::Unsent("x".into())).unwrap_err(), "HF info request failed: x");
    assert_eq!(model_info("r", HubReply::Unreadable("x".into())).unwrap_err(), "parse HF info: x");
    assert_eq!(
        search_models(HubReply::Status("429".into())).unwrap_err(),
        "Hugging Face search returned HTTP 429"
    );
    assert_eq!(search_models(HubReply::Unsent("x".into())).unwrap_err(), "HF search failed: x");
    assert_eq!(search_models(HubReply::Unreadable("x".into())).unwrap_err(), "parse HF search: x");
}

#[test]
fn gated_repos_are_told() {
    let info = |gated: Json| {
        model_info("r", HubReply::Body(ModelInfo { downloads: 3, likes: 2, gated })).unwrap()
    };
    assert_eq!(info(Json::Bool(false)), HfModelInfo { downloads: 3, likes: 2, gated: false });
    assert!(!info(Json::Null).gated);
    assert!(info(Json::string("auto")).gated);
    assert!(info(Json::Bool(true)).gated);
}

#[test]
fn searches_keep_their_order() {
    let found = vec![
        HfModelSummary { id: "b".into(), downloads: 9, likes: 1 },
        HfModelSummary { id: "a".into(), downloads: 3, likes: 7 },
    ];
    let r = search_models(HubReply::Body(found)).unwrap();
    assert_eq!(r[0].id, "b");
    assert_eq!(r[1].likes, 7);
}

#[test]
fn sizes_of_downloads() {
    assert_eq!(download_total(7, Some(9)), 7);
    assert_eq!(download_total(0, Some(9)), 9);
    assert_eq!(download_total(0, None), 0);
}

#[test]
fn the_catalog_is_found_by_id() {
    let all = catalog::all();
    assert_eq!(all.len(), 6);
    for m in &all {
        assert_eq!(catalog::find(&m.id).as_ref(), Some(m));
    }
    let m = catalog::find("qwen2.5-coder-7b").unwrap();
    assert_eq!(m.size_tenths, 45);
    assert_eq!(m.min_ram_tenths, 160);
    assert_eq!(m.context, 32768);
    assert!(catalog::find("nope").is_none());
}

fn entries(fits: &[&str], capability: &[u32]) -> Vec<clif_pad::local_models::CatalogEntry> {
    catalog::all()
        .into_iter()
        .zip(fits.iter().zip(capability))
        .map(|(m, (f, c))| catalog_entry(m, *c, f, "label", false, Some("devstral-small-2")))
        .collect()
}

#[test]
fn the_strongest_that_fits_is_recommended() {
    let r = local_models_catalog(entries(
        &["too_large", "slow", "good", "comfortable", "comfortable", "good"],
        &[9, 8, 5, 6, 6, 1],
    ));
    let ids: Vec<&str> = r.iter().map(|e| e.model.id.as_str()).collect();
    assert_eq!(
        ids,
        vec![
            "qwen2.5-coder-14b",
            "qwen2.5-coder-7b",
            "qwen2.5-coder-32b",
            "qwen2.5-coder-3b",
            "devstral-small-2",
            "qwen3-coder-30b-a3b",
        ]
    );
    let picks: Vec<&str> =
        r.iter().filter(|e| e.recommended).map(|e| e.model.id.as_str()).collect();
    assert_eq!(picks, vec!["qwen2.5-coder-7b"]);
    assert!(r.iter().any(|e| e.active && e.model.id == "devstral-small-2"));
}

#[test]
fn without_a_good_fit_the_best_is_recommended() {
    let r = local_models_catalog(entries(
        &["too_large", "too_large", "slow", "slow", "too_large", "too_large"],
        &[9, 8, 5, 6, 6, 1],
    ));
    let picks: Vec<&str> =
        r.iter().filter(|e| e.recommended).map(|e| e.model.id.as_str()).collect();
    assert_eq!(picks, vec!["qwen2.5-coder-32b"]);
    assert_eq!(fit_rank("comfortable"), 0);
    assert_eq!(fit_rank("anything"), 3);
    assert!(local_models_catalog(vec![]).is_empty());
}

#[test]
fn downloaded_models_are_listed() {
    let f = |id: &str| FileOnDisk {
        id: id.to_string(),
        file: "w.gguf".to_string(),
        size_bytes: 5,
        path: "/m/w.gguf".to_string(),
    };
    let r = local_models_list(
        Some("qwen2.5-coder-3b"),
        &vec![f("qwen2.5-coder-3b"), f("unknown"), f("devstral-small-2")],
    );
    let seen: Vec<(&str, bool)> = r.iter().map(|m| (m.id.as_str(), m.active)).collect();
    assert_eq!(seen, vec![("devstral-small-2", false), ("qwen2.5-coder-3b", true)]);
    assert_eq!(r[0].name, "Devstral Small 2 (24B)");
}

#[test]
fn models_are_resolved() {
    let r = local_model_resolve("qwen2.5-coder-7b", tree()).unwrap();
    assert_eq!(r.repo, "Qwen/Qwen2.5-Coder-7B-Instruct-GGUF");
    assert_eq!(r.filename, "a-q4_k_m.gguf");
    assert_eq!(r.size_bytes, 20);
    assert_eq!(local_model_resolve("x", tree()).unwrap_err(), "unknown model: x");
    assert_eq!(
        local_model_resolve("qwen2.5-coder-7b", HubReply::Unsent("e".into())).unwrap_err(),
        "HF request failed: e"
    );
}

#[test]
fn variants_of_a_model() {
    let m = catalog::find("qwen2.5-coder-7b").unwrap();
    let v = list_variants("r", tree()).unwrap();
    let fits = vec![("good".to_string(), "Good".to_string()), ("slow".to_string(), "May be slow".to_string())];
    let r = local_model_variants(&m, Err("offline".into()), &v, &fits);
    assert_eq!((r.downloads, r.likes, r.gated), (0, 0, false));
    assert!(r.variants[0].recommended && !r.variants[1].recommended);
    assert_eq!(r.variants[1].fit_label, "May be slow");
}

#[test]
fn choosing_and_removing_models() {
    assert_eq!(local_model_download("x").unwrap_err(), "unknown model: x");
    assert_eq!(local_model_download("devstral-small-2").unwrap().quant, "Q4_K_M");
    assert_eq!(local_model_set_active("x", true).unwrap_err(), "unknown model: x");
    assert_eq!(
        local_model_set_active("devstral-small-2", false).unwrap_err(),
        "model 'devstral-small-2' is not downloaded yet"
    );
    match local_model_set_active("devstral-small-2", true).unwrap() {
        MarkerChange::Write(body) => {
            assert_eq!(body, "{\"id\":\"devstral-small-2\"}");
            assert_eq!(read_active(&body), Some("devstral-small-2".to_string()));
        }
        MarkerChange::Remove => panic!("not removed"),
    }
    assert_eq!(local_model_delete("x", true, None).unwrap_err(), "unknown model: x");
    let r = local_model_delete("devstral-small-2", true, Some("devstral-small-2")).unwrap();
    assert!(r.folder);
    assert_eq!(r.marker, Some(MarkerChange::Remove));
    let r = local_model_delete("devstral-small-2", false, Some("other")).unwrap();
    assert!(!r.folder && r.marker.is_none());
}

#[test]
fn the_active_marker_reads_back() {
    for id in ["a", "quo\"te", "new\nline", "日本"] {
        match write_active(Some(id)) {
            MarkerChange::Write(body) => assert_eq!(read_active(&body), Some(id.to_string())),
            MarkerChange::Remove => panic!("not removed"),
        }
    }
    assert_eq!(write_active(None), MarkerChange::Remove);
    assert_eq!(read_active("{}"), None);
    assert_eq!(read_active("{\"id\": 3}"), None);
    assert_eq!(read_active("garbage"), None);
}

#[test]
fn the_engine_is_described() {
    assert_eq!(
        json::print(&local_engine_status(true, Some("m"), None)),
        "{\"active\":null,\"backend\":\"llama.cpp (Metal)\",\"loaded\":\"m\"}"
    );
    assert_eq!(local_engine_status(false, None, None).get_str("backend"), Some("llama.cpp (CPU)"));
    assert_eq!(local_engine_generate(None, None, true).unwrap_err(), "no active local model set");
    assert_eq!(local_engine_generate(Some("a"), Some("a"), false), Ok(None));
    assert_eq!(
        local_engine_generate(Some("a"), None, false).unwrap_err(),
        "active model 'a' is not downloaded"
    );
    assert_eq!(local_engine_generate(Some("a"), None, true), Ok(Some(("a".to_string(), 4096))));
    assert_eq!(
        local_engine_generate(Some("qwen2.5-coder-3b"), Some("a"), true),
        Ok(Some(("qwen2.5-coder-3b".to_string(), 8192)))
    );
    assert_eq!(completion_limit(None), 256);
    assert_eq!(completion_limit(Some(9)), 9);
}

fn at(platform: Platform) -> Surroundings {
    Surroundings {
        platform,
        home: true,
        user_profile: true,
        local_app_data: true,
        xdg_cache_home: false,
        xdg_state_home: false,
    }
}

fn shown(p: &Place) -> String {
    format!("{:?}/{}", p.base, p.names.join("/"))
}

#[test]
fn places_on_every_platform() {
    assert_eq!(shown(&models_dir(&at(Platform::MacOs))), "Home/Library/Caches/com.clif.pad/models");
    assert_eq!(shown(&models_dir(&at(Platform::Windows))), "LocalAppData/clif-pad/models");
    assert_eq!(shown(&models_dir(&at(Platform::Other))), "Home/.cache/clif-pad/models");
    let xdg = Surroundings { xdg_cache_home: true, xdg_state_home: true, ..at(Platform::Other) };
    assert_eq!(shown(&models_dir(&xdg)), "XdgCacheHome/clif-pad/models");
    let bare = Surroundings { home: false, user_profile: false, local_app_data: false, ..at(Platform::MacOs) };
    assert_eq!(shown(&models_dir(&bare)), "Here/.clif/cache/models");
    assert_eq!(shown(&active_marker(&at(Platform::Other))), "Home/.cache/clif-pad/models/active.json");
    assert_eq!(shown(&logging::log_path(&at(Platform::MacOs))), "Home/Library/Logs/ClifPad/clifpad.log");
    assert_eq!(shown(&logging::log_path(&at(Platform::Windows))), "LocalAppData/clif-pad/logs/clifpad.log");
    assert_eq!(shown(&logging::log_path(&at(Platform::Other))), "Home/.local/state/clif-pad/logs/clifpad.log");
    assert_eq!(shown(&logging::log_path(&xdg)), "XdgStateHome/clif-pad/logs/clifpad.log");
    let lost = Surroundings { platform: Platform::Other, ..bare };
    assert_eq!(shown(&logging::log_dir(&lost)), "Here/./.local/state/clif-pad/logs");
    let profile = Surroundings { home: false, ..at(Platform::Other) };
    assert_eq!(profile.user_profile, true);
    assert_eq!(models_dir(&profile).base, Base::UserProfile);
}

#[test]
fn names_stay_inside_their_folder() {
    assert_eq!(sanitize("qwen2.5-coder_7b"), "qwen2.5-coder_7b");
    assert_eq!(sanitize("a/b\\c d"), "a_b_c_d");
    assert_eq!(sanitize("../../etc"), ".._.._etc");
    assert_eq!(sanitize(".."), "__");
    assert_eq!(sanitize("日"), "_");
    let s = at(Platform::Other);
    assert_eq!(shown(&model_dir(&s, "..")), "Home/.cache/clif-pad/models/__");
    assert_eq!(
        shown(&model_file_path(&s, "m/1", "sub/w.gguf")),
        "Home/.cache/clif-pad/models/m_1/sub_w.gguf"
    );
}

#[test]
fn lines_of_the_log() {
    assert_eq!(logging::timestamp(0, 0), "00:00:00.000");
    assert_eq!(logging::timestamp(86_400 + 3_661, 7), "01:01:01.007");
    assert_eq!(logging::timestamp(86_399, 999), "23:59:59.999");
    assert_eq!(logging::log(59, 42, "engine", "load"), "[00:00:59.042] [engine] load\n");
    assert_eq!(logging::start_message(7, 99, "1.2.3"), "=== ClifPad start — pid 7 · epoch 99 · v1.2.3 ===");
    assert!(!logging::needs_rotation(8 * 1024 * 1024));
    assert!(logging::needs_rotation(8 * 1024 * 1024 + 1));
    assert!(shown(&logging::rotated_path(&at(Platform::MacOs))).ends_with("clifpad.log.1"));
}

fn model(path: &str, size: u64, name: &str) -> DiscoveredModel {
    DiscoveredModel {
        source: "clif".into(),
        name: name.into(),
        filename: "f.gguf".into(),
        path: path.into(),
        size_bytes: size,
        quant: "GGUF".into(),
    }
}

#[test]
fn a_scan_shows_each_path_once() {
    let r = scan(vec![
        model("/b", 5, "first"),
        model("/a", 5, "x"),
        model("/b", 9, "second"),
        model("/c", 7, "y"),
    ]);
    let seen: Vec<(&str, u64, &str)> =
        r.iter().map(|m| (m.path.as_str(), m.size_bytes, m.name.as_str())).collect();
    assert_eq!(seen, vec![("/c", 7, "y"), ("/a", 5, "x"), ("/b", 5, "first")]);
}

#[test]
fn files_of_weights_are_told_apart() {
    assert!(is_model_file("a.gguf"));
    assert!(!is_model_file("a.gguf.part"));
    assert!(!is_model_file("a.bin"));
    assert!(is_model_file("a-00001-of-00003.gguf"));
    assert!(!is_model_file("a-00002-of-00003.gguf"));
}

#[test]
fn models_are_called_by_their_folder() {
    assert_eq!(pretty_name(Some("Qwen-Coder"), "q.gguf"), "Qwen-Coder");
    assert_eq!(pretty_name(Some("GGUF"), "q.gguf"), "q");
    assert_eq!(pretty_name(Some("snapshots-1"), "q.gguf"), "q");
    assert_eq!(pretty_name(Some("ab"), "q.gguf.gguf"), "q");
    assert_eq!(pretty_name(None, "q.GGUF"), "q.GGUF");
    let mut out = Vec::new();
    let f = |name: &str| FoundFile {
        name: name.into(),
        parent: Some("Repo".into()),
        path: format!("/m/{}", name),
        size: 3,
    };
    scan_gguf_dir("lmstudio", &vec![f("A-Q4_0.gguf"), f("notes.txt")], &mut out);
    assert_eq!(out.len(), 1);
    assert_eq!(out[0].quant, "Q4_0");
    assert_eq!(out[0].name, "Repo");
    assert_eq!(out[0].source, "lmstudio");
}

#[test]
fn manifests_name_their_blob() {
    let manifest = "{\"layers\":[{\"mediaType\":\"application/vnd.ollama.image.license\",\"digest\":\"sha256:no\"},\
                    {\"mediaType\":\"application/vnd.ollama.image.model\",\"digest\":\"sha256:ab\",\"size\":12}]}";
    assert_eq!(read_manifest(manifest), Some(("sha256-ab".to_string(), 12)));
    assert_eq!(read_manifest("{\"layers\":[{\"mediaType\":\"x.model\"}]}"), None);
    assert_eq!(read_manifest("{}"), None);
    assert_eq!(read_manifest("nope"), None);
    assert_eq!(ollama_name(Some("llama"), Some("8b")), "llama:8b");
    assert_eq!(ollama_name(None, None), "model:latest");
    let mut out = Vec::new();
    let b = FoundBlob {
        tag: Some("8b".into()),
        model: Some("llama".into()),
        digest: "sha256-ab".into(),
        path: "/blobs/sha256-ab".into(),
        size: 12,
    };
    scan_ollama(&vec![b], &mut out);
    assert_eq!(out[0].filename, "sha256-ab.gguf");
    assert_eq!(out[0].name, "llama:8b");
    assert_eq!(out[0].quant, "GGUF");
}

#[test]
fn stores_are_looked_into_in_order() {
    let d = store_dirs(&at(Platform::Other));
    let seen: Vec<(&str, String)> = d.iter().map(|s| (s.source.as_str(), shown(&s.place))).collect();
    assert_eq!(
        seen,
        vec![
            ("lmstudio", "Home/.lmstudio/models".to_string()),
            ("lmstudio", "Home/.cache/lm-studio/models".to_string()),
            ("huggingface", "Home/.cache/huggingface/hub".to_string()),
            ("ollama", "Home/.ollama/models".to_string()),
            ("clif", "Home/.cache/clif-pad/models".to_string()),
        ]
    );
    assert_eq!(d[3].layout, Layout::Ollama);
    let bare = Surroundings { home: false, user_profile: false, ..at(Platform::Other) };
    assert_eq!(store_dirs(&bare).len(), 1);
}

#[test]
fn changes_that_the_editor_is_told_of() {
    assert!(should_ignore("/p/node_modules/x.js", "helper"));
    assert!(should_ignore("/p/.git/HEAD", "helper"));
    assert!(should_ignore("/p/.helper/notes", "helper"));
    assert!(!should_ignore("/p/src/target.rs", "helper"));
    let paths = vec![
        ChangedPath { path: "/p/a.rs".into(), is_file: true },
        ChangedPath { path: "/p/dir".into(), is_file: false },
        ChangedPath { path: "/p/target/x".into(), is_file: true },
    ];
    let c = file_changes(DiskEvent::Modify, &paths, "helper");
    assert_eq!(c.len(), 1);
    assert_eq!((c[0].path.as_str(), c[0].kind.as_str()), ("/p/a.rs", "modify"));
    assert_eq!(file_changes(DiskEvent::Remove, &paths, "helper").len(), 2);
    assert_eq!(file_changes(DiskEvent::Create, &paths, "helper")[0].kind, "create");
    assert!(file_changes(DiskEvent::Other, &paths, "helper").is_empty());
}

#[test]
fn the_machine_is_described() {
    assert_eq!(cpu_brand(Some("  Apple M4 ")), "Apple M4");
    assert_eq!(cpu_brand(Some("  ")), "Unknown CPU");
    assert_eq!(cpu_brand(None), "Unknown CPU");
    assert_eq!(detect_gpu("macos", "Apple M4"), Some("Apple M4 GPU (unified memory)".to_string()));
    assert_eq!(detect_gpu("macos", "Intel"), None);
    assert_eq!(detect_gpu("linux", "Apple"), None);
    let g = |unified, vram| Some(GpuSummary { name: "RTX 4070".into(), unified, vram });
    assert_eq!(build_summary(32, &g(false, Some(12))), "Detected: 32GB RAM + RTX 4070 (12GB VRAM)");
    assert_eq!(build_summary(32, &g(false, None)), "Detected: 32GB RAM + RTX 4070");
    assert_eq!(build_summary(32, &g(true, None)), "Detected: 32GB RAM (RTX 4070)");
    assert_eq!(build_summary(16, &None), "Detected: 16GB RAM");
}

#[test]
fn nothing_is_open_at_first() {
    let s = AppState::new();
    assert!(s.project_root.is_none());
    assert_eq!(s.open_files.len(), 0);
}

#[test]
fn the_catalog_lists_the_strongest_first() {
    let ids: Vec<String> = catalog::all().into_iter().map(|m| m.id).collect();
    let ranks: Vec<u32> = ids.iter().map(|id| catalog::capability(id)).collect();
    assert_eq!(ranks, vec![6, 5, 4, 3, 2, 1]);
    assert_eq!(catalog::capability("none"), 0);
}
