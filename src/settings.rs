use vstd::prelude::*;

verus! {

/// Credentials written into the workspace's secrets file.
pub struct EnvSettings {
    pub eth_rpc_url: String,
    pub arbitrum_rpc: String,
    pub private_key: String,
    pub etherscan_api_key: String,
    pub tenderly_dev_net_rpc_url: String,
}

/// Boilerplate text of the notes and findings files.
pub struct ContentSettings {
    pub notes: String,
    pub findings: String,
}

/// Settings loaded once at startup and only read afterwards.
pub struct Settings {
    pub base_dir: String,
    pub env: EnvSettings,
    pub content: ContentSettings,
}

/// The five lines of the secrets file, keys in their fixed order.
pub open spec fn secrets_text(env: EnvSettings) -> Seq<char> {
    "ETH_RPC_URL="@ + env.eth_rpc_url@ + "\n"@
        + "ARBITRUM_RPC="@ + env.arbitrum_rpc@ + "\n"@
        + "PRIVATE_KEY="@ + env.private_key@ + "\n"@
        + "ETHERSCAN_API_KEY="@ + env.etherscan_api_key@ + "\n"@
        + "TENDERLY_DEV_NET_RPC_URL="@ + env.tenderly_dev_net_rpc_url@ + "\n"@
}

/// The text of the secrets file.
pub fn secrets_file_content(env: &EnvSettings) -> (r: String)
    ensures
        r@ == secrets_text(*env),
{
    let mut out = String::from_str("ETH_RPC_URL=");
    out.append(env.eth_rpc_url.as_str());
    out.append("\n");
    out.append("ARBITRUM_RPC=");
    out.append(env.arbitrum_rpc.as_str());
    out.append("\n");
    out.append("PRIVATE_KEY=");
    out.append(env.private_key.as_str());
    out.append("\n");
    out.append("ETHERSCAN_API_KEY=");
    out.append(env.etherscan_api_key.as_str());
    out.append("\n");
    out.append("TENDERLY_DEV_NET_RPC_URL=");
    out.append(env.tenderly_dev_net_rpc_url.as_str());
    out.append("\n");
    out
}

} // verus!
