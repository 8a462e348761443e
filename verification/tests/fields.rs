use kobo_metadata::fields::{
    authors_from, cover_url_from, get_authors_str, get_cover_url, get_isbn, get_language_code,
    get_publisher, get_release_date, get_series_index, get_series_name, get_subtitle,
    get_synopsis_html, get_tags_str, get_title, isbn_from, keep_decimal_chars,
    language_code_for, language_code_from, languages, publisher_from, release_date_from,
    series_index_from, series_name_from, subtitle_from, synopsis_from, tags_from, title_from,
};
use kobo_metadata::error::ErrorKind;
use kobo_metadata::id::Id;
use kobo_metadata::metadata::Metadata;
use kobo_metadata::page::{
    parse_book_page, select_attributes, select_markup, select_texts, MAX_BODY_CHARS,
};
use kobo_metadata::series_index::SeriesIndex;

fn page(body: &str) -> scraper::Html {
    parse_book_page(body).unwrap()
}

fn strings(texts: &[&str]) -> Vec<String> {
    texts.iter().map(|text| text.to_string()).collect()
}

fn details(date: &str, isbn: &str, language: &str) -> String {
    format!(
        "<div class=\"bookitem-secondary-metadata\"><ul>\
         <li>\n  Kobo Editions\n  </li>\
         <li>發佈日期： <span>{}</span></li>\
         <li>書籍ID： <span>{}</span></li>\
         <li>語言： <span>{}</span></li>\
         </ul></div>",
        date, isbn, language
    )
}

#[test]
fn test_book_title() {
    let book_page = page(
        "<html><body><div class=\"item-info\">\
         <h1 class=\"title product-field\">\n    迷霧之子首部曲：最後帝國\n  </h1>\
         <h1>another heading</h1></div></body></html>",
    );
    let book_title = get_title(&book_page);

    assert_eq!(book_title, "迷霧之子首部曲：最後帝國")
}

#[test]
fn test_book_subtitle() {
    let book_page = page(
        "<div class=\"item-info\"><h1>title</h1><span class=\"other-subtitle\">x</span></div>",
    );
    let book_subtitle = get_subtitle(&book_page);

    assert_eq!(book_subtitle, None)
}

#[test]
fn test_book_authors() {
    let book_page = page(
        "<span class=\"visible-contributors\">\
         <a class=\"contributor-name\" href=\"/a\">John Green</a>, \
         <a class=\"contributor-name\" href=\"/b\">Lauren Myracle</a>, \
         <a class=\"contributor-name\" href=\"/c\">Maureen Johnson</a></span>",
    );
    let book_authors = get_authors_str(&book_page);

    assert_eq!(book_authors, "John Green&Lauren Myracle&Maureen Johnson")
}

#[test]
fn test_book_series_name() {
    let book_page = page(
        "<span class=\"product-sequence-field\">\
         <a data-track-info=\"{}\" href=\"/series\">The Skyward Series</a></span>\
         <a data-track-info=\"{&quot;a&quot;:1}\" href=\"/other\">Other</a>",
    );
    let book_series_name = get_series_name(&book_page);

    assert_eq!(book_series_name, Some("The Skyward Series".to_string()))
}

#[test]
fn test_book_series_index() {
    let book_page = page(
        "<span class=\"sequenced-name-prefix\">第 13.5 冊 - </span>\
         <span class=\"sequenced-name-prefix\">Book 2 - </span>",
    );
    let book_series_index = get_series_index(&book_page)
        .map(|index| index.to_string().parse::<f64>().unwrap());

    assert_eq!(book_series_index, Some(13.5))
}

#[test]
fn test_book_cover() {
    let book_page = page(
        "<head><link rel=\"preload\" as=\"image\" href=\"https://cdn.kobo.com/book-images/28289ceb-265c-488a-bf08-ae3424588a91/353/569/90/False/tSfRgYbwtzGWxEne-NJKWw.jpg\">\
         <link rel=\"preload\" as=\"style\" href=\"/style.css\"></head>",
    );
    let book_cover = get_cover_url(&book_page);

    assert_eq!(book_cover, "https://cdn.kobo.com/book-images/28289ceb-265c-488a-bf08-ae3424588a91/1650/2200/100/False/tSfRgYbwtzGWxEne-NJKWw.jpg")
}

#[test]
fn test_book_synopsis() {
    let test_book_synopsis = "<p>美國亞馬遜讀者評鑑最高票，全球暢銷三千萬冊著作已逝奇幻大師，羅伯特．喬丹指定接班人</p><p>09年「時光之輪」接班作《風起雲湧》，打敗丹布朗新書《失落的符號》，空降紐約時報排行榜冠軍作者</p><p>《出版人週刊》、《軌跡雜誌》、《美國圖書館協會誌》、《克科斯評論》極優評價</p><p>美國最大邦諾連鎖書店頭號選書作者、西班牙UPC科幻大獎得主</p><p>2005年出道即獲《浪漫時代 Romantic Times》奇幻史詩大獎</p><p>2006、2007年入選美國科奇幻地位最高約翰．坎伯新人獎</p><p>超級天才新星作家──布蘭登．山德森全新華麗鉅作</p><p>架構壯閣媲美「冰與火之歌」，精采絕妙更勝「夜巡者」</p><p>「這本書有完美縝密的架構……我極度推薦給任何渴求一本好書的讀者。」──羅蘋．荷布（「刺客」系列作者）</p><p>「 我很驕傲、很榮幸、很迫切想要介紹這位作者和他的作品給所有讀者。」──灰鷹／譚光磊（版權經紀人）</p><p>「 一個繁複的革命計畫，透過作者縝密的佈局，逐步實行。小說結構完整，前後緊密聯繫；布蘭登．山德森能否抽空來寫部推理小說？」──紗卡（推理文學研究會MLR）</p><p>一個不可能成功的絕望計畫，而勝利，將是最糟的代價……</p><p>迷霧之子</p><p>首部曲：最後帝國</p><p>Mistborn: The Final Empire</p><p>「他說：任何人都會背叛你，任何人。」</p><p>如果背叛無所不在，如果一切非你以為那樣，</p><p>你有勇氣知道真相嗎？</p><p>這是個英雄殞落，邪惡籠罩的世界，再不見光明與顏色。</p><p>入夜後，迷霧四起，誰也不曉得，藏身在白茫霧色之後的，會是什麼……</p><p>千年前，善惡雙方決戰，良善一方的英雄歷經千辛萬苦，終於抵達傳說中的聖地「昇華之井」，準備和黑暗勢力一決生死。</p><p>可是，命運女神沒有站在良善這方。</p><p>最後，邪惡擊潰英雄，一統天下，並自稱「統御主」，同時建立「最後帝國」，號稱千秋萬代、永不崩塌。至此，世界隨之變遷，從此綠色不再，所有植物都轉為褐黃，天空永遠陰霾，不間斷地下著灰燼，彷彿是浩劫過後的殘破荒地。入夜之後，濃霧四起，籠罩大地。</p><p>統御主如神一般無敵，以絕對的權力和極端的高壓恐怖統治著最後帝國。他更以凶殘的手段鎮壓平民百姓，不分國籍種族通通打為奴隸階級，通稱「司卡」。司卡人活在無止盡的悲慘和恐懼之中，千年來的奴役讓他們早已沒有希望，沒有任何過去的記憶。</p><p>如今，一線生機浮現。二名貴族與司卡混血卻天賦異稟、身負使命的街頭小人物，即將編織一場前所未有的騙局，進行一項絕不可能成功的計畫，只為了獲得最糟糕的代價──勝利……</p><p>迷霧之子三部曲　Mistborn Trilogy──</p><p>首部曲：最後帝國The Final Empire</p><p>二部曲：昇華之井The Well of Ascension 2010年4月出版</p><p>終部曲：永世英雄The Hero of Ages 2010年6月出版</p>";
    let body = format!(
        "<div class=\"synopsis-description\">{}</div><div class=\"synopsis-description\">x</div>",
        test_book_synopsis
    );
    let book_synopsis = get_synopsis_html(&page(&body))
        .replace(|char: char| char.is_ascii_control(), "");

    assert_eq!(book_synopsis, test_book_synopsis)
}

#[test]
fn test_book_tags() {
    let names = "青少年 - YA,漫畫、圖畫小說和漫畫,兒童,漫畫、圖像小說與連環漫畫,科幻小說與奇幻小說,幻想,兒童,青少年 - YA";
    let mut body = String::new();
    for name in names.split(',') {
        body.push_str(&format!(
            "<li><a class=\"rankingAnchor description-anchor\" href=\"/t\">{}</a></li>",
            name
        ));
    }
    let book_tags = get_tags_str(&page(&body));

    let mut test_tags_vec = "青少年 - YA,漫畫、圖畫小說和漫畫,兒童,漫畫、圖像小說與連環漫畫,科幻小說與奇幻小說,幻想".split(',').collect::<Vec<&str>>();
    test_tags_vec.sort();
    test_tags_vec.dedup();
    let test_tags = test_tags_vec.join(",");

    assert_eq!(book_tags, test_tags)
}

#[test]
fn test_book_publisher() {
    let body = format!(
        "{}<a class=\"description-anchor\" href=\"/imprint\"><span>台灣角川</span></a>",
        details("2022年5月27日", "9786263216143", "中文")
    );
    let book_publisher = get_publisher(&page(&body));

    assert_eq!(book_publisher, "台灣角川")
}

#[test]
fn test_book_release_date() {
    let body = details("2022年5月27日", "9786263216143", "中文");
    let book_release_date = get_release_date(&page(&body));

    assert_eq!(book_release_date, "2022-5-27")
}

#[test]
fn test_book_language_code() {
    let body = details("2011年4月1日", "9781429989817", "英文");
    let book_language_code = get_language_code(&page(&body));

    assert_eq!(book_language_code, "en")
}

#[test]
fn test_book_isbn() {
    let body = details("2011年4月1日", "9781429989817", "英文");
    let book_isbn = get_isbn(&page(&body));

    assert_eq!(book_isbn, "9781429989817")
}

#[test]
fn test_book_metadata() {
    let synopsis = "<p><strong>人生就是會有很多不便利、不舒服，</strong><br>\n<strong>這間有點慘澹的便利店，卻為我們撐起了閃閃發光的空間……</strong></p>\n<p><strong>艱難時刻的光亮之書</strong><br>\n<strong>一間便利店，接通了我們的幸福人生</strong></p>\n<p><strong>★韓國年度最受歡迎小說</strong><br>\n<strong>★銷售破70萬冊，25個都市特選年度之書</strong><br>\n<strong>★Yes24年度之書，韓國各大書店排行榜總冠軍，口碑直追《歡迎光臨夢境百貨》</strong><br>\n<strong>★電子書平台「米莉的書齋」年度圖書第二名</strong><br>\n<strong>★韓國中央圖書館館員推薦之書</strong><br>\n<strong>★售出泰、日、簡中、台灣、越南、印尼等多國版權</strong><br>\n<strong>★影視改編熱烈進行中</strong></p>\n<p>◎全球獨家收錄：作者手寫給台灣讀者的問候箋</p>\n<p>謝哲青＼作家、旅行家<br>\n盧建彰＼導演<br>\n李盈姿＼芒草心慈善協會祕書長<br>\n別家門市＼「超商系」插畫粉絲團<br>\n太咪＼作家、《太咪瘋韓國》版主<br>\n山女孩kit＼作家<br>\n方億玲＼而立書店店長<br>\n徐慧玲＼聆韵企管顧問創辦人──鼓掌推薦</p>\n<p>◎韓國讀者口碑推薦：</p>\n<p>‧這是一本我想推薦給所有人的人生之書。你讀的時候，很可能一會兒哭一會兒笑，但不知不覺間心頭就暖呼呼了。<br>\n‧擦肩而過的人，竟然可以成為彼此生活前進的支撐。一本讓我看到人生力量的書。<br>\n‧我的眼角掛著淚，嘴邊帶著笑。多虧這本書，讓我熬過疫病籠罩的日子。<br>\n‧哭著，笑著，心也跟著暖了。<br>\n‧場景不陌生、人物不陌生，就連裡面的衝突也不陌生，但是人們彼此表達善意卻是這個冷陌時代最需要的態度。</p>\n<p><strong>這間有點不便利，卻讓人想一再前往的便利店，</strong><br>\n<strong>藏著能在艱難生活中給你安慰的各樣物品。</strong></p>\n<p><strong>買一送一的喜悅、三角飯糰模樣的悲傷，</strong><br>\n<strong>以及一萬元所帶來的四次歡笑，</strong><br>\n<strong>充滿特別的故事與奇妙商品組合的便利店，時時歡迎您！</strong></p>\n<p>廉女士搭火車途中，驚覺錢包不見了，此時一通電話來告知，說在車站撿到了包包，還嚅囁詢問能否借用點錢買便當吃。廉女士答應了。</p>\n<p>果然如她所想，對方是一名流浪漢。廉女士在拿回包包時，告知對方，歡迎他來自己經營的便利店吃便當。</p>\n<p>這間便利店生意不太好，店員更是各種邊緣人的組合：上了年紀還為子女操碎了心的婦人；準備公務員考試多年的年輕女孩；五十多歲靠微薄薪水養家的一家之主。而廉女士為了如同家人般的員工，努力把店鋪撐了下來。</p>\n<p>然而，大夜班店員突然辭職，讓她苦惱不已。就在這時，常來吃報廢便當的流浪漢竟陰錯陽差接下這份工作……</p>\n<p>\u{f0d8}</p>\n<p><strong>只差一點點就陷落於孤立和衝突的人生，</strong><br>\n<strong>如何在這個小小的空間裡悄悄獲得喘息？</strong><br>\n<strong>一間不夠便利的便利店，又如何接通大家的幸福人生？</strong></p>\n<p><strong>◎便利店「幫人生加值」小語</strong></p>\n<p>※我問，支持妳的力量究竟是什麼？<br>\n她說，人生本來就是不斷解決問題，既然都要解決問題，那就努力選還可以的問題來解。</p>\n<p>※便利店是個人們來來去去的空間，無論店員還是客人，都只是短暫停留的過客。便利店就像間加油站，讓人們用物品或金錢為自己加值。</p>\n<p>※為什麼開心？因為炸雞？因為爸爸的陪伴？其實無論是什麼都沒關係，因為能一起吃雞的就是家人。</p>\n<p>※人生就是關係，關係的根本就是溝通。我發現只要我們能跟身旁的人交心，幸福其實離我們不遠。</p>\n<p>※巴布狄倫的外婆曾經告訴他，幸福不是在通往目標路途上的某樣東西，而是那條路本身就是幸福。你所遇見的每個人，都在苦苦掙扎著與什麼對抗，所以你必須親切待人。</p>\n<p>【作者簡介】<strong>金浩然（김호연）</strong></p>\n<p><strong>全天候說故事的人</strong><br>\n<strong>人生目標：透過電影、漫畫、小說講述各樣故事</strong></p>\n<p>1974年出生於首爾。畢業於高麗大學人文學院國語國文學科。初入職場時，在電影公司參與創作的劇本《諜變任務》被改編為電影，自此成為編劇。<br>\n第二份工作是擔任漫畫策劃人員，撰寫的《人體實驗區》獲得第一屆富川漫畫故事競賽大獎，自此成了漫畫腳本家。在出版社擔任小說編輯一陣子之後，決定轉換跑道，成為為全職作家。<br>\n他努力實踐「年輕時就該任意揮灑文字」的理念，以長篇小說《望遠洞兄弟》奪下2013年第9屆世界文學獎的優秀獎，展開小說家生涯之路。此後還推出長篇小說《情敵》《幽靈作家》《浮士德》及散文集《每天寫，重新寫，寫到最後》，並參與電影《烈日追殺》的劇本及《南漢山城》的策劃。<br>\n2021年繼《望遠洞兄弟》以後，再度推出描繪鄰里人情的溫暖故事《不便利的便利店》，成為口碑長紅的年度暢銷冠軍，並售出多國版權，影視改編也熱烈進行中。</p>\n<p>＊獲獎紀錄：</p>\n<p>《人體實驗區》獲第一屆富川漫畫故事競賽<br>\n《望遠洞兄弟》獲2013年第9屆世界文學獎優秀獎<br>\n《不便利的便利店》獲韓國超過25個都市選爲年度之書</p>\n<p>譯者 <strong>陳品芳</strong><br>\n政大韓文系畢，曾於台韓兩地職場打滾，目前為韓中專職譯者。熱愛各種二、三次元娛樂，享受在趕稿與耍廢之間穿梭的自由時光。譯有《剝削首爾》《讓尼采當你的心理師》《K-Pop征服世界的秘密》等書。</p>\n";
    let body = format!(
        "<html><head><link as=\"image\" rel=\"preload\" href=\"https://cdn.kobo.com/book-images/04b3ec92-aaa7-4757-b1ac-ff143aed0848/353/569/90/False/J2FjG5BoyDiEQfQn-uI4OA.jpg\"></head>\
         <body><div class=\"item-info\"><h1 class=\"title\">\n 不便利的便利店 \n</h1>\
         <h2><span class=\"subtitle product-field\"> 불편한 편의점 </span></h2>\
         <a class=\"contributor-name\">金浩然 （김호연）</a>\
         <a data-track-info=\"{{}}\">Soul</a></div>\
         <div class=\"synopsis-description\">{}</div>\
         <ul><li><a class=\"rankingAnchor description-anchor\">小說與文學</a></li>\
         <li><a class=\"rankingAnchor description-anchor\">小說與文學</a></li></ul>\
         <a class=\"description-anchor\"><span>寂寞</span></a>\
         {}</body></html>",
        synopsis,
        details("2022年9月1日", "9786269593859", "中文")
    );
    let book_metadata = "J2FjG5BoyDiEQfQn-uI4OA".get_metadata(&body).unwrap();

    let test_book_metadata = Metadata {
        id: "J2FjG5BoyDiEQfQn-uI4OA".to_string(),
        title: "不便利的便利店".to_string(),
        subtitle: Some("불편한 편의점".to_string()),
        authors: "金浩然 （김호연）".to_string(),
        series_name: Some("Soul".to_string()),
        series_index: None,
        cover: "https://cdn.kobo.com/book-images/04b3ec92-aaa7-4757-b1ac-ff143aed0848/1650/2200/100/False/J2FjG5BoyDiEQfQn-uI4OA.jpg".to_string(),
        synopsis: synopsis.to_string(),
        tags: "小說與文學".to_string(),
        publisher: "寂寞".to_string(),
        release_date: "2022-9-1".to_string(),
        language_code: "zh".to_string(),
        isbn: "9786269593859".to_string(),
    };

    assert_eq!(book_metadata, test_book_metadata)
}

#[test]
fn empty_page_gives_every_default() {
    let book_metadata = "some-book".get_metadata("").unwrap();

    let defaults = Metadata {
        id: "some-book".to_string(),
        title: String::new(),
        subtitle: None,
        authors: String::new(),
        series_name: None,
        series_index: None,
        cover: String::new(),
        synopsis: String::new(),
        tags: String::new(),
        publisher: String::new(),
        release_date: String::new(),
        language_code: String::new(),
        isbn: String::new(),
    };

    assert_eq!(book_metadata, defaults)
}

#[test]
fn body_beyond_the_limit_is_a_fetch_error() {
    assert_eq!(MAX_BODY_CHARS, 0x1FFF_FFFF);

    let mut body = "<h1>".repeat(MAX_BODY_CHARS / 4);
    body.push_str("<p>");
    assert_eq!(body.len(), MAX_BODY_CHARS);
    body.push('x');

    assert_eq!(parse_book_page(&body).err(), Some(ErrorKind::Fetch));
    assert_eq!("some-book".get_metadata(&body).err(), Some(ErrorKind::Fetch));
}

#[test]
fn body_length_is_counted_in_characters() {
    let body = "文".repeat(1000);

    assert!(parse_book_page(&body).is_ok());
    assert!("some-book".get_metadata(&body).is_ok());
}

#[test]
fn malformed_markup_is_no_error() {
    let book_page = page("<div class=\"item-info\"><h1>Open <b>title</i></h1");

    assert_eq!(get_title(&book_page), "Open title");
    assert_eq!(get_isbn(&book_page), "");
}

#[test]
fn selection_gives_each_match_in_turn() {
    let book_page = page("<p>one</p><div><p>two <b>and</b> a half</p></div><p>three</p>");

    assert_eq!(select_texts(&book_page, "p"), strings(&["one", "two and a half", "three"]));
    assert_eq!(select_markup(&book_page, "div"), strings(&["<p>two <b>and</b> a half</p>"]));
}

#[test]
fn selection_with_a_broken_selector_is_empty() {
    let book_page = page("<p>one</p>");

    assert_eq!(select_texts(&book_page, "p >"), Vec::<String>::new());
    assert_eq!(select_markup(&book_page, "<p>"), Vec::<String>::new());
    assert_eq!(select_attributes(&book_page, "[", "href"), Vec::<Option<String>>::new());
}

#[test]
fn attributes_are_read_by_name() {
    let book_page = page("<a href=\"/one\" id=\"x\">1</a><a id=\"y\">2</a>");

    assert_eq!(
        select_attributes(&book_page, "a", "href"),
        vec![Some("/one".to_string()), None]
    );
    assert_eq!(
        select_attributes(&book_page, "a", "id"),
        vec![Some("x".to_string()), Some("y".to_string())]
    );
}

#[test]
fn title_is_the_first_heading_trimmed() {
    assert_eq!(title_from(&strings(&["\n\t A title \u{3000} ", "Second"])), "A title");
    assert_eq!(title_from(&strings(&["   "])), "");
    assert_eq!(title_from(&strings(&[])), "");
}

#[test]
fn subtitle_is_absent_without_a_node() {
    assert_eq!(subtitle_from(&strings(&[])), None);
    assert_eq!(subtitle_from(&strings(&["  sub title ", "x"])), Some("sub title".to_string()));
    assert_eq!(subtitle_from(&strings(&[" "])), Some(String::new()));
}

#[test]
fn authors_keep_order_and_duplicates() {
    assert_eq!(authors_from(&strings(&["B", "A", "B"])), "B&A&B");
    assert_eq!(authors_from(&strings(&[" only one "])), " only one ");
    assert_eq!(authors_from(&strings(&[])), "");
}

#[test]
fn series_name_is_taken_as_it_is() {
    assert_eq!(series_name_from(&strings(&[" Soul ", "x"])), Some(" Soul ".to_string()));
    assert_eq!(series_name_from(&strings(&[])), None);
}

#[test]
fn series_index_strips_all_but_digits_and_points() {
    assert_eq!(keep_decimal_chars("Book 13.5 - "), "13.5");
    assert_eq!(keep_decimal_chars("第 ２ 冊 #7, v1.0."), "71.0.");
    assert_eq!(keep_decimal_chars("no number"), "");
    assert_eq!(series_index_from(&strings(&["Book 13.5 - "])), SeriesIndex::parse("13.5"));
    assert_eq!(series_index_from(&strings(&["#3 -", "#4 -"])), SeriesIndex::parse("3"));
}

#[test]
fn series_index_without_digits_is_absent() {
    assert_eq!(series_index_from(&strings(&["Book - "])), None);
    assert_eq!(series_index_from(&strings(&["..."])), None);
    assert_eq!(series_index_from(&strings(&["."])), None);
    assert_eq!(series_index_from(&strings(&[""])), None);
    assert_eq!(series_index_from(&strings(&[])), None);
}

#[test]
fn series_index_with_two_points_is_absent() {
    assert_eq!(series_index_from(&strings(&["v1.2.3"])), None);
    assert_eq!(series_index_from(&strings(&["Vol. 2.5"])), None);
}

#[test]
fn cover_url_asks_for_the_large_image() {
    let addresses = vec![Some("https://x/353/569/90/a/353/569/90/b.jpg".to_string())];
    assert_eq!(cover_url_from(&addresses), "https://x/1650/2200/100/a/1650/2200/100/b.jpg");

    let other = vec![Some("https://x/353/569/9/b.jpg".to_string()), None];
    assert_eq!(cover_url_from(&other), "https://x/353/569/9/b.jpg");
}

#[test]
fn cover_url_is_empty_without_an_address() {
    assert_eq!(cover_url_from(&vec![]), "");
    assert_eq!(cover_url_from(&vec![None, Some("https://x/353/569/90/b.jpg".to_string())]), "");

    let book_page = page("<link as=\"image\"><link as=\"image\" href=\"/353/569/90/\">");
    assert_eq!(get_cover_url(&book_page), "");
}

#[test]
fn synopsis_keeps_its_markup() {
    let book_page = page(
        "<div class=\"synopsis-description\"><p>a <b>bold</b> &amp; <i>b</i></p><br></div>",
    );

    assert_eq!(get_synopsis_html(&book_page), "<p>a <b>bold</b> &amp; <i>b</i></p><br>");
    assert_eq!(synopsis_from(&strings(&[])), "");
}

#[test]
fn tags_are_sorted_and_unique() {
    assert_eq!(tags_from(&strings(&["b", "a", "c", "a", "b"])), "a,b,c");
    assert_eq!(tags_from(&strings(&["c", "b", "a"])), tags_from(&strings(&["a", "c", "b", "c"])));
    assert_eq!(tags_from(&strings(&["ab", "a", "B", "", "abc", "aa"])), ",B,a,aa,ab,abc");
    assert_eq!(tags_from(&strings(&[])), "");
}

#[test]
fn publisher_falls_back_to_the_first_detail() {
    let book_page = page(&details("2022年5月27日", "1", "中文"));

    assert_eq!(get_publisher(&book_page), "Kobo Editions");
    assert_eq!(publisher_from(&strings(&[" Imprint "]), &strings(&["Company"])), " Imprint ");
    assert_eq!(publisher_from(&strings(&[]), &strings(&[" Company\n"])), "Company");
    assert_eq!(publisher_from(&strings(&[]), &strings(&[])), "");
}

#[test]
fn release_date_loses_its_last_character() {
    assert_eq!(release_date_from(&strings(&["2022年5月27日"])), "2022-5-27");
    assert_eq!(release_date_from(&strings(&["2022/05/27"])), "2022-05-2");
    assert_eq!(release_date_from(&strings(&["May 7, 2022."])), "----7--2022");
    assert_eq!(release_date_from(&strings(&["x"])), "");
    assert_eq!(release_date_from(&strings(&[""])), "");
    assert_eq!(release_date_from(&strings(&[])), "");
}

#[test]
fn language_table_has_three_languages() {
    let table = languages();

    assert_eq!(table.len(), 3);
    assert_eq!(language_code_for("中文"), "zh");
    assert_eq!(language_code_for("英文"), "en");
    assert_eq!(language_code_for("日文"), "ja");
}

#[test]
fn unknown_language_has_an_empty_code() {
    assert_eq!(language_code_for("韓文"), "");
    assert_eq!(language_code_for(" 中文"), "");
    assert_eq!(language_code_for("English"), "");
    assert_eq!(language_code_from(&strings(&["a", "b", "法文"])), "");
}

#[test]
fn language_is_the_third_detail() {
    assert_eq!(language_code_from(&strings(&["中文", "英文", "日文", "中文"])), "ja");
    assert_eq!(language_code_from(&strings(&["中文", "英文"])), "");
    assert_eq!(language_code_from(&strings(&[])), "");
}

#[test]
fn isbn_is_the_second_detail() {
    assert_eq!(isbn_from(&strings(&["2022", " 978-x ", "中文"])), " 978-x ");
    assert_eq!(isbn_from(&strings(&["2022"])), "");
    assert_eq!(isbn_from(&strings(&[])), "");
}
