use bmg_dump::bmg_export::{html_begin, HTML_FOOT, INDEX_FOOT, INDEX_HEAD};
use bmg_dump::game_configs::{ph, tp, tww, GameConfig};

fn page_head(ruby_font: &str, font: &str, id: &str, logo_url: &str) -> String {
    format!("<!DOCTYPE html>
<html>
<head>
<style>
    @font-face {{
        font-family: 'fot-rodin-prondb';
        src: url(\"assets/FOT-RodinProN-DB.otf\");
        font-weight: normal;
        font-style: normal;
    }}

    @font-face {{
        font-family: 'reishotai';
        src: url(\"assets/Reishotai.otf\");
        font-weight: normal;
        font-style: normal;
        size-adjust: 120%;
    }}

    @font-face {{
        font-family: 'rock';
        src: url(\"assets/RocknRollOne-Regular.ttf\");
        font-weight: 400;
        font-style: normal;
    }}

    body rt {{
        color : white;
        font-family: '{ruby_font}', 'ＭＳ 明朝', serif;
    }}

    body.nofuri rt {{
        display:none;
    }}


    header {{
            text-align:center;
        }}

  table {{
    table-layout: fixed;
    width: 100%;
    overflow:auto;
    font-family: '{font}';
    
}}
td {{
    border: 1px solid white;
    border-radius: 10px;
    padding:1em;
    }}

thead tr {{
    color:black; 
    background-color: initial;
}}

tr {{
    color: white;
    height: 48px;
    background: rgb(0 0 0 / 90%);
}}


nav {{
    position: sticky;
    background: white;
    top: 0;
}}

nav a:link,  nav a:visited {{
  background-color: #0d6efd;
  color: white;
  padding: 14px 25px;
  text-align: center;
  text-decoration: none;
  display: inline-block;
  border-radius: 10px;
    padding:1em;
}}

nav a:hover, nav a:active {{
  background-color: #0b5ed7;
}}
</style>
<link href=\"styles/{id}.css\" rel=\"stylesheet\" />
</head>
<body>
<header>
  <img src=\"{logo_url}\"/>
</header>
<nav id=\"options\">
    <input id=\"hide-furi\" type=\"checkbox\" name=\"HideFuri\" />
    <label for=\"HideFuri\">Hide Japanese Furigana</label>
    <a href=\"download/{id}.csv\">Download CSV</a>
    <a href=\"download/{id}.xlsx\">Download Excel</a>
</nav>
<table>")
}

fn head_for(config: &GameConfig) -> String {
    let font = match config.id {
        "tww" => "rock",
        _ => "fot-rodin-prondb",
    };
    let ruby_font = match config.id {
        "tp" => "reishotai",
        _ => "fot-rodin-prondb",
    };
    page_head(ruby_font, font, config.id, config.logo)
}

#[test]
fn page_head_of_each_game() {
    for c in [tp(), tww(), ph()] {
        assert_eq!(html_begin(Some(&c)), head_for(&c));
    }
}

#[test]
fn page_head_without_game() {
    let logo = "https://upload.wikimedia.org/wikipedia/commons/thumb/2/2a/Zelda_Logo.svg/1280px-Zelda_Logo.svg.png";
    assert_eq!(html_begin(None), page_head("fot-rodin-prondb", "fot-rodin-prondb", "", logo));
}

#[test]
fn page_foot_and_index_frame() {
    let foot: &str = "</tbody>
</table>
<script> 

const nofuriCheckbox = document.querySelector('#hide-furi');
    nofuriCheckbox.addEventListener('change', () => {
    document.querySelector('body').classList.toggle('nofuri', nofuriCheckbox.checked );
});

</script>
</body>
</html>";
    assert_eq!(HTML_FOOT, foot);
    let head: &str = "<html lang=\"en\">
<head>
    <meta charset=\"UTF-8\">
    <meta name=\"viewport\" content=\"width=device-width, initial-scale=1.0\">
    <title>Zelda Text Dumps</title>
</head>
<body style=\"text-align:center\">
<h1> Zelda comparison tables </h1>
<div>";
    assert_eq!(INDEX_HEAD, head);
    assert_eq!(INDEX_FOOT, "</div></body>\n</html>");
}

#[test]
fn table_headers_name_each_language() {
    assert_eq!(
        bmg_dump::bmg_export::html_headers(Some(&tww())),
        "<thead>\n    <tr><th>Japanese</th><th>UK English</th><th>French</th><th>German</th>\n    </tr>\n  </thead>\n  <tbody>"
    );
}
