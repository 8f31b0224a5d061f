use audit_init::{
    advance, is_final_stage, parse_repo_input, repo_dir_name, secrets_file_content, EnvSettings,
    Stage,
};

#[test]
fn repo_name_from_url() {
    assert_eq!(repo_dir_name("https://github.com/org/vault.git"), "vault");
    assert_eq!(repo_dir_name("https://github.com/org/vault"), "vault");
    assert_eq!(repo_dir_name("vault.git"), "vault");
    assert_eq!(repo_dir_name("https://github.com/org/a.gitb.git"), "ab");
    assert_eq!(repo_dir_name("https://github.com/org/"), "");
    assert_eq!(repo_dir_name(".gi"), ".gi");
}

#[test]
fn typed_line_is_trimmed() {
    let t = parse_repo_input("  https://github.com/org/vault.git \n");
    assert_eq!(t.url, "https://github.com/org/vault.git");
    assert_eq!(t.name, "vault");
}

#[test]
fn secrets_file_has_five_keys_in_order() {
    let env = EnvSettings {
        eth_rpc_url: "e".to_string(),
        arbitrum_rpc: "a".to_string(),
        private_key: "SECRET-REDACTED".to_string(),
        etherscan_api_key: "k".to_string(),
        tenderly_dev_net_rpc_url: "t".to_string(),
    };
    assert_eq!(
        secrets_file_content(&env),
        "ETH_RPC_URL=e\nARBITRUM_RPC=a\nPRIVATE_KEY=SECRET-REDACTED\nETHERSCAN_API_KEY=k\nTENDERLY_DEV_NET_RPC_URL=t\n"
    );
}

#[test]
fn existing_target_stops_the_run() {
    let s = advance(Stage::CheckTarget, false);
    assert_eq!(s, Stage::Conflict);
    assert!(is_final_stage(s));
    assert_eq!(advance(s, true), Stage::Conflict);
}

#[test]
fn failed_clone_stops_before_writes() {
    let s = advance(Stage::Clone, false);
    assert_eq!(s, Stage::CloneFailed);
    assert!(is_final_stage(s));
}

#[test]
fn full_run_passes_every_stage() {
    let mut s = Stage::CheckTarget;
    let mut seen = vec![s];
    while !is_final_stage(s) {
        s = advance(s, true);
        seen.push(s);
    }
    assert_eq!(
        seen,
        vec![
            Stage::CheckTarget,
            Stage::Clone,
            Stage::Scaffold,
            Stage::Scope,
            Stage::Extract,
            Stage::Launch,
            Stage::Done
        ]
    );
}
