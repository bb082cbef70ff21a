use tv_shows_server::sandbox::{eval_fire_player, eval_player_setup, evaluate, fire_player_stream_url, FIRE_PLAYER_PRELUDE};
use tv_shows_server::models::VideoProvider;
use tv_shows_server::providers::media_from_iframe_page;
use tv_shows_server::sweep::expiry_time;

const FIRE_PLAYER_SCRIPT: &str = r###"
        eval(function(p,a,c,k,e,d){e=function(c){return(c<a?'':e(parseInt(c/a)))+((c=c%a)>35?String.fromCharCode(c+29):c.toString(36))};if(!''.replace(/^/,String)){while(c--){d[e(c)]=k[c]||e(c)}k=[function(e){return d[e]}];e=function(){return'\\w+'};c=1};while(c--){if(k[c]){p=p.replace(new RegExp('\\b'+e(c)+'\\b','g'),k[c])}}return p}('33 d="1x";i j(d){1w(d,{"1v":{"1":["1u.0","1t.0","1s.0","1r.0","1q.0","1p.0","1n.0"],"2":["1e.0","1m.0","1l.0","1k.0","1j.0","1i.0","1h.0"],"3":["1g.0","1f.0","1y.0","1o.0","1z.0","1L.0"],"4":["1U.0","1T.0","1S.0","1R.0","1Q.0","1P.0"],"5":["1O.a","1N.a","1M.a","1K.a","1B.a","1J.a"],"6":["1I.a","1H.a","1c.a","1F.a","1E.a","1D.a"],"7":["1C.a","1A.a","1d.a","17.a","1b.a","w.a"],"8":["E.0","r.0","F.0","G.0","D.0","C.0"],"9":["B.0","y.0","A.0","z.0","x.0","v.0"],"10":["u.0","t.0","s.0","I.0","U.0","1a.0"],"11":["19.0","18.0","H.0","Z.0","Y.0","X.0"],"12":["W.0","V.0","T.0","J.0","S.0","R.0"],"13":["Q.0","P.0","O.0","N.0","M.0"],"14":["L.0","K.0","1V.0","1G.0","1X.0"],"15":["31.0","1W.0","30.0","2Z.0","2Y.0"],"16":["2X.0","2W.0","2V.0","2U.0","2T.0","2R.0"]},"2I":"\\/m\\/c\\/l\\/k.p","2Q":"10","2P":"2O","2N":"g","2M":b,"2L":"2K+32\\/2S","34":"e:\\/\\/c.f.h\\/37\\/3e\\/g-8.13.7\\/g.35","39":{"n":"","38":"","36":"","3c":b},"3b":[],"3a":{"3d":"20","3f":"2J"},"2H":"e:\\/\\/c.f.h\\/o\\/2k.2F","2h":b,"2G":b,"2g":b,"2f":"2e 2d 2c 2b 2a 28 1Y 27 26-1","25":q,"24":b,"23":{"22":"21","1Z":"e:\\/\\/c.f.h\\/o\\/2i\\/29.2j","2v":"2E","2D":{"2C":"2B-2A-2z","2y":2x,"2w":2u}},"2l":{"2t":2s,"2r":[{"n":"e:\\/\\/10\\/m\\/c\\/l\\/k.p","2q":"2p","2o":"c"}]}},q)}$(i(){$(2n).2m(i(){j(d)})});',62,202,'xyz||||||||||club|true|hls|vhash|https|tvlogy|jwplayer|to|function|fireload|master|e0e2d4219396e5f966227bc79d04301b|cdn|file|ads|txt|false|stimulationbrand|polemanagement|potentialmanage|claimnight|collectpresent|wholeentertainment|comprehensivefilm|communicationskills|kitchenreactor|browneducation|marriagefit|admitrelative|lengthgrace|regulationoffice|sausagegreet|soldiersquash|commitmentunfair|thankslevel|convincejudgment|arenalast|advertiseroar|counterdesigner|bottomappeal|mirrorpreach|researchertechnique|bracketcompetence|impactstop|seriesdiscuss|villagefactor|mountainentry|coastswing|healthintegrity|agilegutter|layoutbundle|writerghost||||||||tiresequence|publicationslip|pepperbreast|loyaltytube|vanpatient|justiceracism|subwaytiptoe|amplealarm|favorlamb|safewheat|telljust|anxietypatient|tacticdance|advertisingenlarge|spareexcitement|migrationplagiarize|minoritycontinuous|royaltyrare|aviationintegration|architectureincredible|interventionoccupation|secretarydictionary|bangannouncement|quartermathematics|hostList|FirePlayer|dcd0985760d5621b9279ccaa313601cf|scramblejacket|classroomdrown|reserveoffense|coretrace|putbet|pressurejudicial|portraitladder|managementimprovement|caseembryo|foldaccident|episodeinstal|crosswinner|collectionenhance|mountainpersist|calmtemptation|businessfoster|acquaintanceecho|perfectaccountant|stretchdismissal|premiumrace|boldtrench|beheadmoon|memorialgraduate|brotheruncertainty|icelisten|conventionsay|October|tag||googima|client|advertising|rememberPosition|displaytitle|Pt|2021|21st|index24|Hai|Kehlata|Kya|Rishta|Yeh|title|jwplayer8quality|SubtitleManager|new|xml|tvl|videoData|ready|document|type|HD|label|videoSources|null|videoImage|300|vpaidmode|width|250|height|div|companion|sample|id|companiondiv|insecure|jpg|jwplayer8button1|defaultImage|videoUrl|Tahoma|FvaHWSQaGQ96mtkOAZ8NAA|jwPlayerKey|isJWPlayer8|videoPlayer|disk2|videoDisk|videoServer|feedapproval|0AfO3U6t8T22XvLxZsKspzMX5Ss8xBvgFg|skipview|fascinatetrade|shavehook|buildadmires|selfrelationships|tracefree|stingenergy|sheepviolation|delicatescreen|YSvvZ6|var|jwPlayerURL|js|position|player|link|logo|captions|tracks|hide|fontSize|assets|fontfamily'.split('|'),0,{}))
    "###;

const PLAYER_SETUP_SCRIPT: &str = r##"eval(function(p,a,c,k,e,d){while(c--)if(k[c])p=p.replace(new RegExp('\\b'+c.toString(a)+'\\b','g'),k[c]);return p}('9.4i={"1m":{"1l":{}}};1c 8=9("4h").4g({4f:[{13:"4://15.14.6/4e/v.1y",1x:"4d"},{13:"4://15.14.6/4c/v.1y",1x:"4b"}],4a:"4://15.14.6/i/49/48/17.47",46:\'./z/\',"45":{"13":"","44":"","18":"11","d":"43-42"},1q:"1w%",1p:"1w%",41:"40",3z:"3y.28",3x:{3w:{"3v":"#1v","3u":"#3t"},3s:{"3r":"#1v","3q":"3p(12,12,12,0.3)"}},3o:{3n:\'p\',3m:{a:{e:"a",r:10,b:\'\'},3l:{e:"3k",r:10,b:[\'4://q.o-x.6/n-m-l-k-j/a-h/\',\'4://p.1u.1t/?1s=1r\',\'\',\'\']},3j:{e:"3i",r:10,b:[\'4://q.o-x.6/n-m-l-k-j/a-h/\',\'4://p.1u.1t/?1s=1r\',\'\',\'\',\'\']},3h:{e:"3g",r:10,b:[\'\',\'4://q.o-x.6/n-m-l-k-j/a-h/\',\'4://v.3f.6/b/p?3e=3d&3c=s.6&1q=1o-3b&1p=1o-3a&39=38-37\',\'\']},1n:{e:"1n",b:[\'\',\'4://q.o-x.6/n-m-l-k-j/a-h/\']}}},36:{},35:\'34\',33:"11",32:"11",31:"30",2z:"2y",1m:{"1l":{}},2x:[],2w:"",2v:"4://s.6"});c(2u==\'2t\'){}2s{8.1j("./z/1i/1k.1h","2r 1g",7(){8.1f(8.1e()+10)},"1k");8.1j("./z/1i/1d.1h","2q 1g",7(){8.1f(8.1e()-10)},"1d")}1c t,y,w=0;9().f(\'2p\',7(x){c(5>0&&x.d>=5&&y!=1){y=1;$(\'u.2o\').2n(\'2m\')}c(w==0&&x.d>=1b&&x.d<=(1b+2)){w=x.d}});9().f(\'2l\',7(x){1a(x)});9().f(\'2k\',7(){$(\'u.19\').2j()});7 1a(x){$(\'u.19\').18();c(t)2i;t=1;g=0;c(2h.2g===2f){g=1}$.2e(\'4://s.6/2d?2c=2b&2a=17&29=27-26-25-24-23&22=1&g=\'+g,7(16){$(\'#21\').20(16)})}9().f(\'1z\',7(){});',36,163,'||||https||com|function|player8|jwplayer|pre|tag|if|position|offset|on|adb|roll||1c35782c6341|9e82|4fb3|dcaf|fe3f21e4|reyden|vast||skipoffset|vkspeed|vvplay|div||x2ok||vvad|player8177||true|255|file|vkcdn5|hetremove|data|q2d6bwoycfmp|hide|video_ad|doPlay|188|var|backward|getPosition|seek|10s|svg|skins|addButton|forward1|ping|plugins|post|__player|height|width|11627|tcid|xyz|yomeno|3298da|100|label|mp4|ready|html|fviews|embed|49e254942d41f88f848744903868ec2b|1647128682|254|104|1527648||hash|file_code|view|op|dl|get|undefined|cRAds|window|return|show|complete|play|slow|fadeIn|video_ad_fadein|time|Backward|Forward|else|1200|678|aboutlink|abouttext|tracks|start|startparam|html5|primary|hlshtml|androidhls|none|preload|cast|number__|__random|cb|height__|width__|page_url|11510|pzoneid|adtrue|720|thirdmid|420|secmid|120|firstmid|schedule|client|advertising|rgba|rail|progress|timeslider|29b765|iconsActive|icons|controlbar|skin|629|duration|uniform|stretching|bar|control|link|logo|base|jpg|00305|01|image|192p|olaxkjugr3uiolyobgx2bqlpmzmkjkq3yfkudworii66jl7tvhvhwuk73rrq|360p|olaxkjugr3uiolyobgx2bqlpmzmkjkq3yfkudworiaqoll7tvhvgyvzb2ipa|sources|setup|vplayer|defaults'.split('|')))"##;

#[test]
fn test_script() {
    let (url, server, disk) = eval_fire_player(FIRE_PLAYER_SCRIPT).unwrap();
    println!("URL: {url}");
    println!("?s={server}&d={disk}");
    assert_eq!(url, "/cdn/hls/e0e2d4219396e5f966227bc79d04301b/master.txt");
    assert_eq!(server, "10");
    assert_eq!(disk, "ZGlzazI=");
}

#[test]
fn test_eval() {
    let source = eval_player_setup(PLAYER_SETUP_SCRIPT).unwrap();
    println!("{}", source);
    assert_eq!(
        source,
        "https://hetremove.vkcdn5.com/olaxkjugr3uiolyobgx2bqlpmzmkjkq3yfkudworiaqoll7tvhvgyvzb2ipa/v.mp4"
    );
}

#[test]
fn sandbox_reads_back_named_globals() {
    let names = vec!["videoUrl".to_string(), "videoServer".to_string(), "videoDisk".to_string()];
    let vals = evaluate(FIRE_PLAYER_PRELUDE, FIRE_PLAYER_SCRIPT, &names).unwrap();
    assert_eq!(
        vals,
        vec![
            "/cdn/hls/e0e2d4219396e5f966227bc79d04301b/master.txt".to_string(),
            "10".to_string(),
            "disk2".to_string(),
        ]
    );
}

#[test]
fn sandbox_missing_variable_is_an_error() {
    let names = vec!["noSuchVariable".to_string()];
    assert!(evaluate(FIRE_PLAYER_PRELUDE, "let x = 1;", &names).is_err());
}

#[test]
fn sandbox_throwing_script_is_an_error() {
    assert!(eval_player_setup("throw new Error('boom');").is_err());
}

#[test]
fn sandbox_keeps_no_state_between_calls() {
    let names = vec!["leftover".to_string()];
    assert!(evaluate("", "var leftover = 'x';", &names).is_ok());
    assert!(evaluate("", "", &names).is_err());
}

#[test]
fn fire_player_stream_url_appends_parameters() {
    let url = fire_player_stream_url(
        "/cdn/hls/abc/master.txt",
        "10",
        "ZGlzazI=",
        "https://tvlogy.to/player/index.php?data=1",
    )
    .unwrap();
    assert_eq!(url, "https://tvlogy.to/cdn/hls/abc/master.txt?s=10&d=ZGlzazI=");
}

#[test]
fn test_expiry() {
    let secs = expiry_time();
    println!("{:?}", secs);
    assert!(secs > 0 && secs <= 86400);
}

#[test]
fn iframe_pages_with_unpacker_scripts() {
    let iframe = "https://p.example/embed/index.php?data=1";
    let page = format!("<html><script>{}</script></html>", PLAYER_SETUP_SCRIPT);
    assert_eq!(
        media_from_iframe_page(VideoProvider::Vkprime, &page, iframe).unwrap(),
        "https://hetremove.vkcdn5.com/olaxkjugr3uiolyobgx2bqlpmzmkjkq3yfkudworiaqoll7tvhvgyvzb2ipa/v.mp4"
    );
    let page = format!("<html><script>{}</script></html>", FIRE_PLAYER_SCRIPT);
    assert_eq!(
        media_from_iframe_page(VideoProvider::TVLogy, &page, iframe).unwrap(),
        "https://p.example/cdn/hls/e0e2d4219396e5f966227bc79d04301b/master.txt?s=10&d=ZGlzazI="
    );
}

#[test]
fn sandbox_survives_self_referencing_values() {
    let names = vec!["a".to_string()];
    assert!(evaluate("", "var a = {}; a.a = a; a", &names).is_err());
    let names = vec!["s".to_string()];
    assert_eq!(evaluate("", "var s = 'x'; var c = {}; c.c = c; c", &names).unwrap(), vec!["x".to_string()]);
}

#[test]
fn sandbox_names_must_be_identifiers() {
    let names = vec!["0), (s".to_string()];
    assert!(evaluate("", "var s = 'x';", &names).is_err());
    let names = vec!["".to_string()];
    assert!(evaluate("", "", &names).is_err());
}
