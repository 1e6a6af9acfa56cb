use meta::resource::{
    copyright, four_part_text, packed_version, plan, resource_metadata, ENGLISH_US, VFT2_UNKNOWN,
    VFT_DLL, VOS_NT_WINDOWS32, VS_FFI_FILEFLAGSMASK,
};
use meta::{AgentInstance, Version};

#[test]
fn packed_version_layout() {
    let v = Version { major: 1, minor: 2, patch: 3 };
    assert_eq!(0x0001_0002_0003_0000, packed_version(&v));
    assert_eq!(0, packed_version(&Version::default()));
}

#[test]
fn four_part_version_text() {
    assert_eq!("1.0.82.0", four_part_text(&Version { major: 1, minor: 0, patch: 82 }));
}

#[test]
fn copyright_line() {
    assert_eq!(
        "Copyright © 2024 Vadim Piven <vadim@piven.tech> (https://piven.tech)",
        copyright(2024)
    );
    assert_eq!(
        "Copyright © -5 Vadim Piven <vadim@piven.tech> (https://piven.tech)",
        copyright(-5)
    );
}

#[test]
fn metadata_fields() {
    let v = Version { major: 3, minor: 4, patch: 5 };
    let m = resource_metadata("Node Reqwest", &v, "node_reqwest.node", "node", 2025);
    assert_eq!(0x0003_0004_0005_0000, m.file_version);
    assert_eq!(m.file_version, m.product_version);
    assert_eq!(VS_FFI_FILEFLAGSMASK, m.flags_mask);
    assert_eq!(0x3F, m.flags_mask);
    assert_eq!(0, m.flags);
    assert_eq!(VOS_NT_WINDOWS32, m.os);
    assert_eq!(0x0004_0004, m.os);
    assert_eq!(VFT_DLL, m.file_type);
    assert_eq!(2, m.file_type);
    assert_eq!(VFT2_UNKNOWN, m.file_subtype);
    assert_eq!(ENGLISH_US, m.language);
    assert_eq!(0x0409, m.language);
    assert_eq!("Vadim Piven <vadim@piven.tech> (https://piven.tech)", m.company_name);
    assert_eq!(
        "Copyright © 2025 Vadim Piven <vadim@piven.tech> (https://piven.tech)",
        m.legal_copyright
    );
    assert_eq!("Node Reqwest", m.product_name);
    assert_eq!("Node Reqwest", m.file_description);
    assert_eq!("node", m.internal_name);
    assert_eq!("node_reqwest.node", m.original_filename);
    assert_eq!("3.4.5.0", m.product_version_text);
    assert_eq!("3.4.5.0", m.file_version_text);
}

#[test]
fn no_embedding_off_target() {
    let v = Version { major: 1, minor: 0, patch: 0 };
    assert!(plan(false, "Node Reqwest", &v, "node_reqwest.node", "node", 2025).is_none());
}

#[test]
fn embedding_on_target_uses_given_year() {
    let v = Version { major: 1, minor: 0, patch: 0 };
    let m = plan(true, "Node Reqwest", &v, "node_reqwest.node", "node", 2026).unwrap();
    assert_eq!("1.0.0.0", m.file_version_text);
    assert_eq!(0x0001_0000_0000_0000, m.file_version);
    assert_eq!(
        "Copyright © 2026 Vadim Piven <vadim@piven.tech> (https://piven.tech)",
        m.legal_copyright
    );
    assert_eq!("node", m.internal_name);
}

#[test]
fn agent_instance_is_plain() {
    assert_eq!(AgentInstance, AgentInstance::new());
}
