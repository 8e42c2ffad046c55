//! Names, locations and limits that the loader works with.
use vstd::prelude::*;

verus! {

pub const EVENT_NAME: &'static str = "setup://status";
pub const CSGO_APP_DIR: &'static str = "Counter-Strike Global Offensive";
pub const CSGO_EXE: &'static str = "csgo.exe";
pub const CSGO_APP_IDS: [&'static str; 2] = ["730", "4465480"];
pub const CSGO_PATH_HINT_FILE: &'static str = "csgo_path.txt";
pub const CSGO_PATH_CACHE_FILE: &'static str = "csgo_path_cache.txt";
pub const CSGO_PATH_ENV_VARS: [&'static str; 3] = ["LOADER_CSGO_PATH", "CSGO_PATH", "CSGO_DIR"];
pub const GAME_LIBRARY_PATH: [&'static str; 3] = ["nl_cloud", "scripts", "libraries"];
pub const MAX_USERNAME_LENGTH: usize = 13;

pub const STRUCTURAL_SCAN_MAX_DEPTH: usize = 6;
pub const STRUCTURAL_SCAN_MAX_SECONDS: u64 = 10;
pub const STRUCTURAL_SCAN_MAX_VISITED_DIRS: usize = 10000;
pub const STRUCTURAL_SCAN_MAX_CANDIDATES: usize = 24;

pub const UTILITY_EXE: &'static str = "injector.exe";
pub const UTILITY_DLL: &'static str = "neverlose.dll";
pub const UTILITY_RUNTIME_DIR: &'static str = "payload";
pub const UTILITY_PAYLOAD_ARCHIVE: &'static str = "neverlose-payload.zip";

pub const PRIMO_EXE: &'static str = "primo.exe";
pub const PRIMO_DLL: &'static str = "primordial-csgo.dll";
pub const PRIMO_RUNTIME_DIR: &'static str = "primordial-payload";
pub const PRIMO_PAYLOAD_ARCHIVE: &'static str = "primordial-payload.zip";

pub const GAMESENSE_EXE: &'static str = "skeet-insecure.exe";
pub const GAMESENSE_DLL: &'static str = "skeet.dll";
pub const GAMESENSE_RUNTIME_DIR: &'static str = "gamesense-payload";
pub const GAMESENSE_PAYLOAD_ARCHIVE: &'static str = "gamesense-payload.zip";

pub const LUA_ARCHIVE: &'static str = "lua_libs.zip";
pub const PROCESS_SETTLE_DELAY_MS: u64 = 500;
pub const CREATE_NO_WINDOW: u32 = 0x08000000;

} // verus!
