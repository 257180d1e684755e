use rpaste::breaks::AppConfig;
use rpaste::breaks::BreakScheduler;
use rpaste::filekind::is_image;
use rpaste::filekind::is_pdf;
use rpaste::filekind::is_video;
use rpaste::filekind::validate_source;
use rpaste::gitflow::GitFlowConfig;
use rpaste::gitflow::get_config_path;
use rpaste::gitflow::load_config;
use rpaste::hutpaste::AppError;
use rpaste::hutpaste::Colorize;
use rpaste::hutpaste::Visibility;
use rpaste::hutpaste::find_paste_id;
use rpaste::keymap::MappingValue;
use rpaste::keymap::KeyAction;
use rpaste::keymap::KeyPair;
use rpaste::keymap::Mode;
use rpaste::keymap::decide_second_key;
use rpaste::keymap::default_mappings;
use rpaste::signstyle::format_color;
use rpaste::signstyle::should_enable_color;
use rpaste::wc::WcResult;
use rpaste::wc::count_stats;
use rpaste::passwords::OutputType;
use rpaste::passwords::build_api_url;
use rpaste::passwords::create_alfred_items;
use rpaste::passwords::format_alfred_json;
use rpaste::passwords::format_output;
use rpaste::passwords::format_plain_text;
use rpaste::passwords::is_valid_password_count;
use rpaste::passwords::parse_api_response;
use rpaste::ratio::ParseError;
use rpaste::ratio::SupportedShell;
use rpaste::ratio::convert_dimension;
use rpaste::ratio::gcd;
use rpaste::ratio::get_aspect_ratio;
use rpaste::ratio::parse_ratio;
use rpaste::response::split_errors;
use rpaste::retry::calculate_retry_delay;
use rpaste::retry::should_retry;
use rpaste::signscan::AppFormat;
use rpaste::signscan::parse_codesign_output;
use rpaste::signscan::scan_codesign_output;
use rpaste::sysinfo::OSInfo;
use rpaste::sysinfo::get_os_release_name;
use rpaste::wallabag::build_query_params;
use rpaste::wallabag::validate_archive;
use rpaste::wallabag::validate_detail;
use rpaste::wallabag::validate_order;
use rpaste::wallabag::validate_public;
use rpaste::wallabag::validate_sort;
use rpaste::wallabag::validate_starred;

#[test]
fn test_parse_api_response() {
    let body: &str = "password1\npassword2\npassword3\n";
    let passwords: Vec<String> = parse_api_response(body);

    assert_eq!(passwords.len(), 3);
    assert_eq!(passwords[0], "password1");
    assert_eq!(passwords[1], "password2");
    assert_eq!(passwords[2], "password3");
}

#[test]
fn test_parse_api_response_with_empty_lines() {
    let body = "pass1\n\npass2\n  \npass3\n";
    let passwords = parse_api_response(body);

    assert_eq!(passwords.len(), 3);
}

#[test]
fn test_format_alfred_json() {
    let passwords = vec!["test1".to_string(), "test2".to_string()];
    let json = format_alfred_json(passwords);

    assert!(json.contains("test1"));
    assert!(json.contains("test2"));
    assert!(json.contains("items"));
    assert!(json.contains("Click to copy to clipboard"));
}

#[test]
fn test_is_valid_password_count() {
    let passwords = vec!["a".to_string(), "b".to_string(), "c".to_string()];
    assert!(is_valid_password_count(&passwords, 3));
    assert!(!is_valid_password_count(&passwords, 2));
}

#[test]
fn test_should_retry() {
    assert!(should_retry(1, 3));
    assert!(should_retry(2, 3));
    assert!(!should_retry(3, 3));
}

#[test]
fn test_calculate_retry_delay() {
    assert_eq!(calculate_retry_delay(1), 100);
    assert_eq!(calculate_retry_delay(2), 200);
    assert_eq!(calculate_retry_delay(3), 400);
}

#[test]
fn alfred_json_is_exact() {
    let json = format_alfred_json(vec!["p1".to_string(), "".to_string(), "p2".to_string()]);
    assert_eq!(
        json,
        "{\"items\":[{\"title\":\"p1\",\"subtitle\":\"Click to copy to clipboard\",\"arg\":\"p1\"},{\"title\":\"p2\",\"subtitle\":\"Click to copy to clipboard\",\"arg\":\"p2\"}]}"
    );
    let v: serde_json::Value = serde_json::from_str(&json).unwrap();
    assert_eq!(v["items"].as_array().unwrap().len(), 2);
}

#[test]
fn plain_output_joins_nonempty_passwords() {
    let out = format_plain_text(vec!["a".to_string(), "".to_string(), "b".to_string()]);
    assert_eq!(out, "a\nb");
    let out2 = format_output(vec!["x".to_string()], OutputType::Plain);
    assert_eq!(out2, "x");
}

#[test]
fn alfred_items_skip_empty_passwords() {
    let items = create_alfred_items(vec!["a".to_string(), "".to_string()]);
    assert_eq!(items.len(), 1);
    assert_eq!(items[0].title, "a");
    assert_eq!(items[0].arg, "a");
    assert_eq!(items[0].subtitle, "Click to copy to clipboard");
}

#[test]
fn api_url_carries_count_and_length() {
    assert_eq!(
        build_api_url(10, 20),
        "https://www.random.org/passwords/?num=10&len=20&format=plain&rnd=new"
    );
}

#[test]
fn gcd_and_aspect_ratio_reduce() {
    assert_eq!(gcd(1920, 1080), 120);
    assert_eq!(get_aspect_ratio(1920, 1080), (16, 9));
    assert_eq!(get_aspect_ratio(0, 7), (0, 7));
    assert_eq!(get_aspect_ratio(13, 7), (13, 7));
}

#[test]
fn ratio_parsing_accepts_all_separators() {
    assert_eq!(parse_ratio("16:9").unwrap(), (16, 9));
    assert_eq!(parse_ratio("1920x1080").unwrap(), (1920, 1080));
    assert_eq!(parse_ratio("4\u{d7}3").unwrap(), (4, 3));
    assert_eq!(parse_ratio(" 16 : 9 ").unwrap(), (16, 9));
}

#[test]
fn ratio_parsing_rejects_bad_input() {
    assert_eq!(parse_ratio("1080p"), Err(ParseError::InvalidFormat));
    assert_eq!(parse_ratio("a:3"), Err(ParseError::InvalidNumbers));
    assert_eq!(parse_ratio("0:3"), Err(ParseError::NonPositiveNumbers));
    assert_eq!(parse_ratio("100000001:3"), Err(ParseError::TooLarge));
}

#[test]
fn dimension_conversion_scales_and_guards() {
    assert_eq!(convert_dimension(1920, 9, 16), Some(1080));
    assert_eq!(convert_dimension(5, 1, 0), None);
    assert_eq!(convert_dimension(4000000000, 100, 1), None);
}

#[test]
fn shell_names_are_case_insensitive() {
    assert_eq!(SupportedShell::from_str("Bash"), Some(SupportedShell::Bash));
    assert_eq!(SupportedShell::from_str("ZSH"), Some(SupportedShell::Zsh));
    assert_eq!(SupportedShell::from_str("fish"), Some(SupportedShell::Fish));
    assert_eq!(SupportedShell::from_str("PowerShell"), Some(SupportedShell::PowerShell));
    assert_eq!(SupportedShell::from_str("elvish"), Some(SupportedShell::Elvish));
    assert_eq!(SupportedShell::from_str("csh"), None);
    let all = SupportedShell::all();
    assert_eq!(all, vec!["bash", "zsh", "fish", "powershell", "elvish"]);
}

#[test]
fn wallabag_validators_accept_only_known_values() {
    assert!(validate_archive(0) && validate_archive(1) && !validate_archive(2));
    assert!(validate_starred(1) && !validate_starred(9));
    assert!(validate_public(0) && !validate_public(255));
    assert!(validate_sort("created") && validate_sort("updated") && validate_sort("archived"));
    assert!(!validate_sort("title"));
    assert!(validate_order("asc") && validate_order("desc") && !validate_order("up"));
    assert!(validate_detail("metadata") && validate_detail("full") && !validate_detail("brief"));
}

#[test]
fn query_params_keep_order_and_values() {
    let params = build_query_params(1, 0, "created", "desc", 2, 30, "news", 0, 0, "full", "");
    assert_eq!(params.len(), 11);
    assert_eq!(params[0], ("archive", "1".to_string()));
    assert_eq!(params[1], ("starred", "0".to_string()));
    assert_eq!(params[2], ("sort", "created".to_string()));
    assert_eq!(params[4], ("page", "2".to_string()));
    assert_eq!(params[5], ("perPage", "30".to_string()));
    assert_eq!(params[10], ("domain_name", "".to_string()));
}

#[test]
fn visibility_words_match_the_cli() {
    assert_eq!(Visibility::Public.as_str(), "public");
    assert_eq!(Visibility::Unlisted.as_str(), "unlisted");
    assert_eq!(Visibility::Private.as_str(), "private");
}

#[test]
fn paste_id_is_the_first_hexadecimal_token() {
    let listing = "Total 2 pastes\nabc123 notes.txt 2024\ndeadbeef other.txt 2023\n";
    match find_paste_id(listing, "notes.txt") {
        Ok(id) => assert_eq!(id, "abc123"),
        Err(_) => panic!("a hexadecimal token line must be found"),
    }
    match find_paste_id("no ids here\nnone at all\n", "notes.txt") {
        Err(AppError::PasteNotFound(msg)) => {
            assert_eq!(msg, "No paste ID found for notes.txt");
        }
        _ => panic!("a listing without ids must not match"),
    }
}

#[test]
fn colors_wrap_with_ansi_codes() {
    assert_eq!("ok".green(), "\u{1b}[32m\u{1b}[1mok\u{1b}[0m");
    assert_eq!("ok".to_string().cyan(), "\u{1b}[36m\u{1b}[1mok\u{1b}[0m");
    assert_eq!("ok".bold(), "\u{1b}[1mok\u{1b}[0m");
    assert_eq!("ok".blue(), "\u{1b}[34m\u{1b}[1mok\u{1b}[0m");
}

#[test]
fn server_messages_split_on_dots() {
    let errors = split_errors("first problem.second problem. third");
    assert_eq!(
        errors,
        vec!["first problem".to_string(), "second problem".to_string(), " third".to_string()]
    );
    assert_eq!(split_errors(""), Vec::<String>::new());
    assert_eq!(split_errors("..."), Vec::<String>::new());
}

#[test]
fn release_names_follow_the_major_version() {
    assert_eq!(get_os_release_name("14.2.1"), "Sonoma");
    assert_eq!(get_os_release_name("15.0"), "Sequoia");
    assert_eq!(get_os_release_name("26.0"), "Tahoe");
    assert_eq!(get_os_release_name("not-a-version"), "Cheetah");
}

#[test]
fn sysinfo_starts_unknown() {
    let info = OSInfo::new();
    assert_eq!(info.version, "Unknown");
}

#[test]
fn gitflow_defaults_are_conventional() {
    let c: GitFlowConfig = load_config();
    assert_eq!(c.main_branch, "main");
    assert_eq!(c.develop_branch, "develop");
    assert_eq!(c.feature_prefix, "feature/");
    assert_eq!(c.version_tag_prefix, "v");
    assert_eq!(get_config_path(), ".git/gitflow-config.json");
}

#[test]
fn scheduler_keeps_its_configuration() {
    let s = BreakScheduler::new(AppConfig { break_interval: 1200, microbreak_interval: 300 });
    assert_eq!(s.config.break_interval, 1200);
    assert_eq!(s.config.microbreak_interval, 300);
}

#[test]
fn mapping_values_come_from_strings() {
    match MappingValue::from("<Esc>".to_string()) {
        MappingValue::Str(s) => assert_eq!(s, "<Esc>"),
        MappingValue::Func(_) => panic!("a plain string maps to a literal"),
    }
}

#[test]
fn colors_spell_extremes_by_name() {
    assert_eq!(format_color(255, 255, 255, 255), "White");
    assert_eq!(format_color(0, 0, 0, 255), "Black");
    assert_eq!(format_color(1, 2, 3, 4), "#01020304");
    assert_eq!(format_color(0xde, 0xad, 0xbe, 0xef), "#DEADBEEF");
    assert!(should_enable_color(false, false, false, true));
    assert!(!should_enable_color(true, false, false, true));
    assert!(!should_enable_color(false, false, true, true));
    assert!(!should_enable_color(false, false, false, false));
}

#[test]
fn escape_pairs_inject_only_on_a_match() {
    let mappings = vec![
        KeyPair {
            mode: Mode::I,
            first: "j".to_string(),
            second: "k".to_string(),
            rhs: MappingValue::Str("<Esc>".to_string()),
        },
        KeyPair {
            mode: Mode::V,
            first: "j".to_string(),
            second: "k".to_string(),
            rhs: MappingValue::Str("<Esc>".to_string()),
        },
    ];
    match decide_second_key(&None, false, &mappings, "k".to_string()) {
        KeyAction::Record { key } => assert_eq!(key, "k"),
        _ => panic!("with nothing remembered the key is recorded"),
    }
    match decide_second_key(&Some("x".to_string()), false, &mappings, "k".to_string()) {
        KeyAction::Record { key } => assert_eq!(key, "k"),
        _ => panic!("without a matching pair the key is recorded"),
    }
    match decide_second_key(&Some("j".to_string()), true, &mappings, "k".to_string()) {
        KeyAction::Inject { backspace, was_modified, rhs } => {
            assert!(backspace);
            assert!(was_modified);
            match rhs {
                MappingValue::Str(s) => assert_eq!(s, "<Esc>"),
                MappingValue::Func(_) => panic!("the first matching pair is a literal"),
            }
        }
        _ => panic!("a matching pair must inject"),
    }
}

#[test]
fn word_and_byte_counts_add_up() {
    let lines = vec!["hello world".to_string(), "".to_string(), "  a  b ".to_string()];
    let r = count_stats(&lines, true, true, true, true, true, false);
    assert_eq!(r.lines, 3);
    assert_eq!(r.words, 4);
    assert_eq!(r.bytes, 11 + 1 + 0 + 1 + 7 + 1);
    assert_eq!(r.chars, 11 + 1 + 0 + 1 + 7 + 1);
    assert_eq!(r.longest_line, 11);
    let off = count_stats(&lines, false, false, false, false, false, false);
    assert_eq!(off, WcResult::new());
    let mut total = WcResult::new();
    total.add(&r);
    total.add(&r);
    assert_eq!(total.lines, 6);
    assert_eq!(total.longest_line, 11);
}

#[test]
fn codesign_report_is_scanned_field_by_field() {
    let report = "Executable=/Applications/Demo.app/Contents/MacOS/Demo\n\
Identifier=com.example.demo\n\
Format=app bundle with Mach-O thin (arm64)\n\
CodeDirectory v=20400 size=800 flags=0x10000(runtime) hashes=17+7 location=embedded\n\
CandidateCDHashFull sha256=aabbcc\n\
CDHash=ddeeff\n\
Authority=Developer ID Application: Example Corp (TEAM01)\n\
Authority=Developer ID Certification Authority\n\
Authority=Apple Root CA\n\
Notarization Ticket=stapled\n";
    let (info, exe) = parse_codesign_output(report);
    assert_eq!(info.identifier, "com.example.demo");
    assert_eq!(info.name, "Demo");
    assert!(matches!(info.format, AppFormat::Application));
    assert!(info.is_notarized);
    assert!(!info.is_valid);
    assert_eq!(info.signer_type, "Apple Developer ID");
    assert_eq!(info.authorities.len(), 3);
    assert_eq!(info.authorities[2], "Apple Root CA");
    assert_eq!(exe.as_deref(), Some("/Applications/Demo.app/Contents/MacOS/Demo"));
    assert!(info.hashes.is_none());

    let (plain, none_exe) = parse_codesign_output("Identifier=tool\nFormat=Mach-O thin (x86_64)\n");
    assert_eq!(plain.name, "tool");
    assert!(matches!(plain.format, AppFormat::Executable));
    assert_eq!(plain.signer_type, "Unknown");
    assert!(none_exe.is_none());
}

#[test]
fn codesign_scan_keeps_the_last_hash_uppercased() {
    let scan = scan_codesign_output("CandidateCDHashFull sha256=aab1\nCDHash=ffe2\n");
    assert_eq!(scan.cd_hash, b"FFE2".to_vec());
    let scan2 = scan_codesign_output("CandidateCDHashFull sha256=aab1\n");
    assert_eq!(scan2.cd_hash, b"AAB1".to_vec());
}

#[test]
fn mime_kinds_match_their_prefixes() {
    assert!(is_image("image/png") && !is_image("video/mp4"));
    assert!(is_video("video/mp4") && !is_video("image/png"));
    assert!(is_pdf("application/pdf") && !is_pdf("application/json"));
    assert!(validate_source("npm") && validate_source("crates") && validate_source("composer"));
    assert!(!validate_source("pypi"));
}

#[test]
fn output_type_names_are_case_insensitive() {
    assert_eq!(OutputType::from_str("plain"), Ok(OutputType::Plain));
    assert_eq!(OutputType::from_str("ALFRED"), Ok(OutputType::Alfred));
    match OutputType::from_str("json") {
        Err(m) => assert_eq!(m, "Invalid output type: json. Must be 'plain' or 'alfred'"),
        Ok(_) => panic!("an unknown output type must be rejected"),
    }
}

#[test]
fn stock_mappings_cover_the_five_modes() {
    let m = default_mappings();
    assert_eq!(m.len(), 7);
    assert_eq!(m[0].first, "j");
    assert_eq!(m[0].second, "k");
    match decide_second_key(&Some("j".to_string()), false, &m, "j".to_string()) {
        KeyAction::Inject { backspace, .. } => assert!(backspace),
        _ => panic!("the stock jj pair must inject"),
    }
}

#[test]
fn reply_lines_lose_unicode_padding() {
    let passwords = parse_api_response("alpha\u{a0}\n\u{a0}\u{3000}\n\u{2003}beta\n");
    assert_eq!(passwords, vec!["alpha".to_string(), "beta".to_string()]);
}

#[test]
fn retry_delay_reaches_the_widest_attempt() {
    assert_eq!(calculate_retry_delay(58), 100u64 * (1u64 << 57));
}
