use hephaestus::sandbox::executor::SandboxError;
use hephaestus::error::HephaestusError;
use hephaestus::memory::evo_genome::{AAKEncoder, SemanticClusterer, WingManager};
use hephaestus::memory::genome_store::{
    check_size_limit, deletion_result, require_hash, successful_genomes, validate_path, EvoGenome,
    RejectionRecord, RepairGenome, TribunalActor,
};

fn genome(hash: &str, trigger: Option<&str>) -> RepairGenome {
    let mut g = RepairGenome::new(hash.to_string(), "fn main() {}".to_string());
    g.telemetry_trigger = trigger.map(|t| t.to_string());
    g
}

fn refusal(path: &str) -> String {
    match validate_path(path) {
        Err(HephaestusError::InvalidInput(m)) => m,
        Err(_) => panic!("unexpected error kind"),
        Ok(()) => String::new(),
    }
}

#[test]
fn database_paths_are_checked() {
    assert_eq!(refusal(""), "Database path cannot be empty");
    assert_eq!(refusal("../../etc/passwd.db"), "Database path cannot contain directory traversal sequences");
    assert_eq!(refusal("/tmp/test.db"), "Database path must be relative to working directory");
    assert_eq!(refusal("test.txt"), "Database path must have .db or .sqlite extension");
    assert_eq!(refusal(".db"), "Database path must have .db or .sqlite extension");
    assert!(validate_path("test.db").is_ok());
    assert!(validate_path("data/genomes.SQLite").is_ok());
    assert!(validate_path("a/./b.db/").is_ok());
}

#[test]
fn store_size_limit() {
    assert_eq!(check_size_limit(10, 20).unwrap(), 30);
    assert_eq!(check_size_limit(47185900, 20).unwrap(), 47185920);
    match check_size_limit(47185900, 21) {
        Err(HephaestusError::InvalidInput(m)) => assert_eq!(
            m,
            "Storing this genome would exceed the 45 MiB memory limit. Current size: 47185900 bytes, Required: 21 bytes, Limit: 47185920 bytes"
        ),
        _ => panic!("limit not enforced"),
    }
    match check_size_limit(u64::MAX, 1) {
        Err(HephaestusError::InvalidInput(m)) => assert_eq!(m, "Genome size calculation overflow"),
        _ => panic!("overflow not caught"),
    }
}

#[test]
fn hashes_and_deletions() {
    assert!(require_hash("abc").is_ok());
    assert!(matches!(require_hash(""), Err(HephaestusError::InvalidInput(_))));
    assert!(deletion_result(1, "h").is_ok());
    match deletion_result(0, "h1") {
        Err(HephaestusError::NotFound(m)) => assert_eq!(m, "Genome with hash h1 not found"),
        _ => panic!("missing genome not reported"),
    }
}

#[test]
fn only_repaired_genomes_are_successful() {
    let mut a = genome("a", None);
    a.final_repaired_code = Some("x".to_string());
    let b = genome("b", None);
    let mut c = genome("c", None);
    c.final_repaired_code = Some("y".to_string());
    let s = successful_genomes(vec![a, b, c]);
    let hashes: Vec<String> = s.iter().map(|g| g.hash.clone()).collect();
    assert_eq!(hashes, vec!["a".to_string(), "c".to_string()]);
}

#[test]
fn clusters_group_genomes_by_hash() {
    let mut c = SemanticClusterer::new();
    let a = genome("a", Some("panic"));
    let b = genome("b", Some("panic"));
    assert_eq!(c.assign_cluster(&a), 0);
    assert_eq!(c.assign_cluster(&b), 1);
    assert_eq!(c.assign_cluster(&a), 0);
    assert_eq!(c.get_cluster(&b), Some(1));
    assert_eq!(c.get_cluster(&genome("z", None)), None);
    assert_eq!(c.get_cluster_members(0), Some(vec!["a".to_string()]));
    c.merge_clusters(1, 0);
    assert_eq!(c.get_cluster_members(0), Some(vec!["b".to_string(), "a".to_string()]));
    assert_eq!(c.get_cluster_members(1), None);
    assert_eq!(c.get_cluster(&b), Some(0));
    c.merge_clusters(0, 0);
    assert_eq!(c.get_cluster_members(0).unwrap().len(), 2);
}

#[test]
fn wings_follow_the_telemetry() {
    let mut w = WingManager::new();
    assert_eq!(w.assign_wing(&genome("a", Some("thread PANICKED at unwrap"))), "WingOfPanics");
    assert_eq!(w.assign_wing(&genome("b", Some("Mutex poisoned"))), "WingOfConcurrency");
    assert_eq!(w.assign_wing(&genome("c", Some("stack overflow"))), "WingOfMemory");
    assert_eq!(w.assign_wing(&genome("d", Some("index 5 out of bounds"))), "WingOfIndexing");
    assert_eq!(w.assign_wing(&genome("e", Some("weird"))), "WingOfGeneral");
    assert_eq!(w.assign_wing(&genome("f", None)), "WingOfUnknown");
    assert_eq!(w.assign_wing(&genome("g", Some("oom killer"))), "WingOfMemory");
    assert_eq!(w.get_wing(&genome("c", None)), Some("WingOfMemory".to_string()));
    assert_eq!(w.get_wing(&genome("zz", None)), None);
    assert_eq!(
        w.get_wing_members("WingOfMemory"),
        Some(vec!["c".to_string(), "g".to_string()])
    );
    assert_eq!(w.get_wing_members("WingOfNothing"), None);
    assert_eq!(w.list_wings().len(), 6);
}

#[test]
fn encoding_round_trips() {
    let e = AAKEncoder::new();
    let data = b"fn main() { let x = 0; }".to_vec();
    let enc = e.encode(&data);
    assert_ne!(enc, data);
    assert_eq!(e.decode(&enc), data);
    assert_eq!(e.try_decode(&enc), Some(data));
    assert_eq!(e.try_decode(&[1, 2, 3]), None);
}

#[test]
fn genomes_are_enriched_before_storage() {
    let mut evo = EvoGenome::new();
    let mut g = genome("hash1", Some("panic: index out of bounds"));
    g.original_code = "struct A; impl A { fn f() {} fn g() {} }".to_string();
    g.final_repaired_code = Some("fixed".to_string());
    evo.prepare(&mut g).unwrap();
    assert_eq!(g.semantic_cluster, Some(0));
    assert_eq!(g.wing, Some("WingOfPanics".to_string()));
    assert_eq!(g.dependency_density, Some(7));
    let mut hasher = std::collections::hash_map::DefaultHasher::new();
    std::hash::Hash::hash("struct A; impl A { fn f() {} fn g() {} }", &mut hasher);
    assert_eq!(g.ast_topology_hash, Some(std::hash::Hasher::finish(&hasher)));
    let compressed = g.aaak_compressed.clone().unwrap();
    assert_eq!(AAKEncoder::new().decode(&compressed), b"fixed".to_vec());

    let mut kept = genome("hash2", None);
    kept.semantic_cluster = Some(9);
    kept.wing = Some("WingOfMemory".to_string());
    kept.dependency_density = Some(3);
    evo.prepare(&mut kept).unwrap();
    assert_eq!(kept.semantic_cluster, Some(9));
    assert_eq!(kept.wing, Some("WingOfMemory".to_string()));
    assert_eq!(kept.dependency_density, Some(3));
    assert_eq!(kept.aaak_compressed, None);

    let mut empty = genome("", None);
    assert!(evo.prepare(&mut empty).is_err());
    assert_eq!(empty.semantic_cluster, None);
}

#[test]
fn records_and_actors() {
    let r = RejectionRecord { patch: "p".to_string(), reason: "r".to_string(), timestamp: 3 };
    assert_eq!(r.clone(), r);
    assert_ne!(TribunalActor::WildMonkey, TribunalActor::AngryMaster);
    let g = RepairGenome::new("h".to_string(), "c".to_string());
    assert!(g.rejected_patches.is_empty() && g.final_repaired_code.is_none());
    assert!(g.timestamp > 0);
}

#[test]
fn error_messages_name_their_kind() {
    let cases = vec![
        (HephaestusError::Database("locked".to_string()), "Database error: locked"),
        (HephaestusError::Io("denied".to_string()), "I/O error: denied"),
        (HephaestusError::TreeSitter("version".to_string()), "Tree-sitter error: version"),
        (HephaestusError::Json("eof".to_string()), "JSON error: eof"),
        (
            HephaestusError::Sandbox(SandboxError::InvalidConfig("zero".to_string())),
            "Sandbox error: Invalid sandbox configuration: zero",
        ),
        (HephaestusError::InvalidInput("x".to_string()), "Invalid input: x"),
        (HephaestusError::NotFound("h".to_string()), "Resource not found: h"),
        (HephaestusError::NotPermitted("p".to_string()), "Operation not permitted: p"),
        (HephaestusError::Configuration("c".to_string()), "Configuration error: c"),
        (HephaestusError::Internal("i".to_string()), "Internal inconsistency: i"),
    ];
    for (e, m) in cases {
        assert_eq!(e.message(), m);
    }
}

#[test]
fn an_empty_hash_is_refused_and_nothing_is_filled_in() {
    let mut evo = EvoGenome::new();
    let mut g = genome("", Some("panic: boom"));
    g.final_repaired_code = Some("fixed".to_string());
    assert!(evo.can_prepare(&g));
    match evo.prepare(&mut g) {
        Err(HephaestusError::InvalidInput(m)) => assert_eq!(m, "Genome hash cannot be empty"),
        _ => panic!("expected the empty-hash error"),
    }
    assert_eq!(g.semantic_cluster, None);
    assert_eq!(g.wing, None);
    assert_eq!(g.aaak_compressed, None);
    assert_eq!(g.dependency_density, None);
    assert_eq!(g.ast_topology_hash, None);
}
