//! A machine-readable description of the drawing, input, camera, audio
//! and framework API: each function's name, category, parameters, return
//! type, an example and its stability.
use vstd::prelude::*;
use crate::text::str_equal;

verus! {

/// API categories.
#[derive(Debug, Clone, Copy, PartialEq, Eq, Structural)]
pub enum ApiCategory {
    Drawing,
    Input,
    Sprite,
    Camera,
    Audio,
    Framework,
    Animation,
    Particles,
    Resources,
}

/// The name of a category.
pub open spec fn category_name(c: ApiCategory) -> Seq<char> {
    match c {
        ApiCategory::Drawing => "Drawing"@,
        ApiCategory::Input => "Input"@,
        ApiCategory::Sprite => "Sprite"@,
        ApiCategory::Camera => "Camera"@,
        ApiCategory::Audio => "Audio"@,
        ApiCategory::Framework => "Framework"@,
        ApiCategory::Animation => "Animation"@,
        ApiCategory::Particles => "Particles"@,
        ApiCategory::Resources => "Resources"@,
    }
}

impl ApiCategory {
    /// The category's name, as shown to users.
    pub fn name(&self) -> (s: String)
        ensures
            s@ == category_name(*self),
    {
        match self {
            ApiCategory::Drawing => String::from_str("Drawing"),
            ApiCategory::Input => String::from_str("Input"),
            ApiCategory::Sprite => String::from_str("Sprite"),
            ApiCategory::Camera => String::from_str("Camera"),
            ApiCategory::Audio => String::from_str("Audio"),
            ApiCategory::Framework => String::from_str("Framework"),
            ApiCategory::Animation => String::from_str("Animation"),
            ApiCategory::Particles => String::from_str("Particles"),
            ApiCategory::Resources => String::from_str("Resources"),
        }
    }
}

/// A function parameter.
#[derive(Debug, Clone)]
pub struct Parameter {
    pub name: String,
    pub type_label: String,
    pub description: String,
}

/// A function's return value.
#[derive(Debug, Clone)]
pub struct ReturnType {
    pub type_label: String,
    pub description: String,
}

/// One API function.
#[derive(Debug, Clone)]
pub struct ApiFunction {
    pub name: String,
    pub category: String,
    pub description: String,
    pub parameters: Vec<Parameter>,
    pub return_type: ReturnType,
    pub example: Option<String>,
    /// `stable`, `experimental` or `deprecated`.
    pub stability: String,
}

/// The whole API description.
#[derive(Debug, Clone)]
pub struct ApiReference {
    pub version: String,
    pub engine_name: String,
    pub functions: Vec<ApiFunction>,
    pub categories: Vec<String>,
}

/// `f` is described by these texts: name, category, description, the
/// parameters (name, type, description), return type and its description,
/// example and stability.
pub open spec fn described_as(
    f: ApiFunction,
    name: Seq<char>,
    category: Seq<char>,
    description: Seq<char>,
    params: Seq<(Seq<char>, Seq<char>, Seq<char>)>,
    ret: Seq<char>,
    ret_description: Seq<char>,
    example: Seq<char>,
    stability: Seq<char>,
) -> bool {
    &&& f.name@ == name
    &&& f.category@ == category
    &&& f.description@ == description
    &&& f.parameters@.len() == params.len()
    &&& forall|i: int| 0 <= i < params.len() ==> {
        &&& (#[trigger] f.parameters@[i]).name@ == params[i].0
        &&& f.parameters@[i].type_label@ == params[i].1
        &&& f.parameters@[i].description@ == params[i].2
    }
    &&& f.return_type.type_label@ == ret
    &&& f.return_type.description@ == ret_description
    &&& f.example matches Some(e) && e@ == example
    &&& f.stability@ == stability
}

/// The functions of `r` in category `category`, in order.
pub open spec fn in_category(fs: Seq<ApiFunction>, category: Seq<char>) -> Seq<ApiFunction> {
    fs.filter(|f: ApiFunction| f.category@ == category)
}

impl ApiReference {
    /// The functions of the given category, in order.
    pub fn by_category(&self, category: &str) -> (r: Vec<&ApiFunction>)
        ensures
            r@.map_values(|f: &ApiFunction| *f) == in_category(self.functions@, category@),
    {
        let ghost pred = |f: ApiFunction| f.category@ == category@;
        let mut out: Vec<&ApiFunction> = Vec::new();
        let mut i: usize = 0;
        while i < self.functions.len()
            invariant
                i <= self.functions@.len(),
                pred == (|f: ApiFunction| f.category@ == category@),
                out@.map_values(|f: &ApiFunction| *f) == self.functions@.take(i as int).filter(pred),
            decreases self.functions@.len() - i,
        {
            let f = &self.functions[i];
            let ghost before = out@.map_values(|f: &ApiFunction| *f);
            if str_equal(f.category.as_str(), category) {
                out.push(f);
            }
            proof {
                let t = self.functions@.take(i + 1);
                assert(t.drop_last() =~= self.functions@.take(i as int));
                assert(t.last() == self.functions@[i as int]);
                reveal(Seq::filter);
                if pred(*f) {
                    assert(out@.map_values(|f: &ApiFunction| *f) =~= before.push(*f));
                } else {
                    assert(out@.map_values(|f: &ApiFunction| *f) =~= before);
                }
            }
            i = i + 1;
        }
        assert(self.functions@.take(self.functions@.len() as int) =~= self.functions@);
        out
    }

    /// The first function with the given name.
    pub fn find_function(&self, name: &str) -> (r: Option<&ApiFunction>)
        ensures
            match r {
                Some(f) => exists|i: int| 0 <= i < self.functions@.len() && self.functions@[i] == *f
                    && f.name@ == name@
                    && forall|j: int| 0 <= j < i ==> (#[trigger] self.functions@[j]).name@ != name@,
                None => forall|j: int| 0 <= j < self.functions@.len() ==> (#[trigger] self.functions@[j]).name@ != name@,
            },
    {
        let mut i: usize = 0;
        while i < self.functions.len()
            invariant
                i <= self.functions@.len(),
                forall|j: int| 0 <= j < i ==> (#[trigger] self.functions@[j]).name@ != name@,
            decreases self.functions@.len() - i,
        {
            if str_equal(self.functions[i].name.as_str(), name) {
                return Some(&self.functions[i]);
            }
            i = i + 1;
        }
        None
    }
}

/// A parameter description.
fn param(name: &str, type_label: &str, description: &str) -> (p: Parameter)
    ensures
        p.name@ == name@,
        p.type_label@ == type_label@,
        p.description@ == description@,
{
    Parameter {
        name: String::from_str(name),
        type_label: String::from_str(type_label),
        description: String::from_str(description),
    }
}

/// A function description.
fn api_fn(
    name: &str,
    category: &str,
    description: &str,
    parameters: Vec<Parameter>,
    ret: &str,
    ret_description: &str,
    example: &str,
    stability: &str,
) -> (f: ApiFunction)
    ensures
        f.name@ == name@,
        f.category@ == category@,
        f.description@ == description@,
        f.parameters == parameters,
        f.return_type.type_label@ == ret@,
        f.return_type.description@ == ret_description@,
        f.example matches Some(e) && e@ == example@,
        f.stability@ == stability@,
{
    ApiFunction {
        name: String::from_str(name),
        category: String::from_str(category),
        description: String::from_str(description),
        parameters,
        return_type: ReturnType {
            type_label: String::from_str(ret),
            description: String::from_str(ret_description),
        },
        example: Some(String::from_str(example)),
        stability: String::from_str(stability),
    }
}
/// The API as built: the functions in order, each with its description.
pub open spec fn api_described(fs: Seq<ApiFunction>) -> bool {
    &&& fs.len() == 17
    &&& described_as(fs[0], "pset"@, "Drawing"@, "指定座標にピクセルを描画"@,
        seq![("x"@, "i32"@, "X座標"@), ("y"@, "i32"@, "Y座標"@), ("col"@, "u8"@, "色（0-15、パレットインデックス）"@)],
        "()"@, "なし"@, "pset(10, 20, 3);"@, "stable"@)
    &&& described_as(fs[1], "pget"@, "Drawing"@, "指定座標のピクセル色を取得"@,
        seq![("x"@, "i32"@, "X座標"@), ("y"@, "i32"@, "Y座標"@)],
        "Option<u8>"@, "ピクセル色（範囲外の場合 None）"@, "if let Some(col) = pget(10, 20) { println!(\"Color: {}\", col); }"@, "stable"@)
    &&& described_as(fs[2], "line"@, "Drawing"@, "2点間に直線を描画"@,
        seq![("x1"@, "i32"@, "開始点 X座標"@), ("y1"@, "i32"@, "開始点 Y座標"@), ("x2"@, "i32"@, "終了点 X座標"@), ("y2"@, "i32"@, "終了点 Y座標"@), ("col"@, "u8"@, "色"@)],
        "()"@, "なし"@, "line(10, 20, 50, 60, 5);"@, "stable"@)
    &&& described_as(fs[3], "rect"@, "Drawing"@, "矩形を描画（枠線）"@,
        seq![("x"@, "i32"@, "左上 X座標"@), ("y"@, "i32"@, "左上 Y座標"@), ("w"@, "i32"@, "幅"@), ("h"@, "i32"@, "高さ"@), ("col"@, "u8"@, "色"@)],
        "()"@, "なし"@, "rect(10, 10, 50, 30, 7);"@, "stable"@)
    &&& described_as(fs[4], "rectfill"@, "Drawing"@, "矩形を塗りつぶし"@,
        seq![("x"@, "i32"@, "左上 X座標"@), ("y"@, "i32"@, "左上 Y座標"@), ("w"@, "i32"@, "幅"@), ("h"@, "i32"@, "高さ"@), ("col"@, "u8"@, "色"@)],
        "()"@, "なし"@, "rectfill(10, 10, 50, 30, 3);"@, "stable"@)
    &&& described_as(fs[5], "circle"@, "Drawing"@, "円を描画（枠線）"@,
        seq![("x"@, "i32"@, "中心 X座標"@), ("y"@, "i32"@, "中心 Y座標"@), ("r"@, "i32"@, "半径"@), ("col"@, "u8"@, "色"@)],
        "()"@, "なし"@, "circle(50, 50, 20, 9);"@, "stable"@)
    &&& described_as(fs[6], "circfill"@, "Drawing"@, "円を塗りつぶし"@,
        seq![("x"@, "i32"@, "中心 X座標"@), ("y"@, "i32"@, "中心 Y座標"@), ("r"@, "i32"@, "半径"@), ("col"@, "u8"@, "色"@)],
        "()"@, "なし"@, "circfill(50, 50, 20, 12);"@, "stable"@)
    &&& described_as(fs[7], "print"@, "Drawing"@, "テキストを画面に描画"@,
        seq![("text"@, "&str"@, "描画するテキスト"@), ("x"@, "i32"@, "X座標"@), ("y"@, "i32"@, "Y座標"@), ("col"@, "u8"@, "色"@)],
        "()"@, "なし"@, "print(\"Hello, World!\", 10, 10, 7);"@, "stable"@)
    &&& described_as(fs[8], "cls"@, "Drawing"@, "画面をクリア"@,
        seq![("col"@, "u8"@, "クリア色（パレットインデックス）"@)],
        "()"@, "なし"@, "cls(0);"@, "stable"@)
    &&& described_as(fs[9], "spr"@, "Sprite"@, "スプライトを描画"@,
        seq![("n"@, "usize"@, "スプライト ID"@), ("x"@, "f32"@, "描画位置 X座標"@), ("y"@, "f32"@, "描画位置 Y座標"@)],
        "()"@, "なし"@, "spr(0, 100.0, 50.0);"@, "stable"@)
    &&& described_as(fs[10], "btn"@, "Input"@, "キーが現在押されているか判定"@,
        seq![("key"@, "Key"@, "キー定数（Key::Up, Key::Down, Key::Left, Key::Right, Key::Z, Key::X）"@)],
        "bool"@, "押下状態"@, "if btn(Key::Up) { println!(\"Up pressed\"); }"@, "stable"@)
    &&& described_as(fs[11], "btnp"@, "Input"@, "キーが押下直後か判定（1フレームのみ true）"@,
        seq![("key"@, "Key"@, "キー定数"@)],
        "bool"@, "押下直後の状態"@, "if btnp(Key::Z) { println!(\"Z button pressed\"); }"@, "stable"@)
    &&& described_as(fs[12], "camera"@, "Camera"@, "カメラ位置を設定"@,
        seq![("x"@, "f32"@, "カメラ X位置"@), ("y"@, "f32"@, "カメラ Y位置"@)],
        "()"@, "なし"@, "camera(player_x - 80.0, player_y - 60.0);"@, "stable"@)
    &&& described_as(fs[13], "zoom"@, "Camera"@, "ズームレベルを設定"@,
        seq![("scale"@, "f32"@, "ズーム倍率（1.0 = 等倍）"@)],
        "()"@, "なし"@, "zoom(2.0);"@, "stable"@)
    &&& described_as(fs[14], "sfx"@, "Audio"@, "効果音を再生"@,
        seq![("n"@, "usize"@, "サウンド ID"@)],
        "()"@, "なし"@, "sfx(0);"@, "experimental"@)
    &&& described_as(fs[15], "music"@, "Audio"@, "音楽を再生"@,
        seq![("n"@, "usize"@, "ミュージック ID"@)],
        "()"@, "なし"@, "music(0);"@, "experimental"@)
    &&& described_as(fs[16], "frame_time"@, "Framework"@, "前フレームの経過時間をミリ秒で取得"@,
        Seq::<(Seq<char>, Seq<char>, Seq<char>)>::empty(),
        "f32"@, "経過時間（ミリ秒）"@, "let dt = frame_time();"@, "stable"@)
}

/// The category names of the API, in order.
pub open spec fn api_categories() -> Seq<Seq<char>> {
    seq!["Drawing"@, "Sprite"@, "Input"@, "Camera"@, "Audio"@, "Framework"@, "Animation"@, "Particles"@, "Resources"@]
}

/// The API description: version `0.1.0` of the `Nantaraquad` engine, its
/// functions and its categories.
pub fn build_api_reference() -> (r: ApiReference)
    ensures
        r.version@ == "0.1.0"@,
        r.engine_name@ == "Nantaraquad"@,
        api_described(r.functions@),
        r.categories@.len() == api_categories().len(),
        forall|i: int| 0 <= i < api_categories().len() ==> (#[trigger] r.categories@[i])@ == api_categories()[i],
{
    let mut functions: Vec<ApiFunction> = Vec::new();
    let f = api_fn("pset", "Drawing", "指定座標にピクセルを描画",
        vec![param("x", "i32", "X座標"), param("y", "i32", "Y座標"), param("col", "u8", "色（0-15、パレットインデックス）")],
        "()", "なし", "pset(10, 20, 3);", "stable");
    assert(described_as(f, "pset"@, "Drawing"@, "指定座標にピクセルを描画"@,
        seq![("x"@, "i32"@, "X座標"@), ("y"@, "i32"@, "Y座標"@), ("col"@, "u8"@, "色（0-15、パレットインデックス）"@)],
        "()"@, "なし"@, "pset(10, 20, 3);"@, "stable"@));
    functions.push(f);
    let f = api_fn("pget", "Drawing", "指定座標のピクセル色を取得",
        vec![param("x", "i32", "X座標"), param("y", "i32", "Y座標")],
        "Option<u8>", "ピクセル色（範囲外の場合 None）", "if let Some(col) = pget(10, 20) { println!(\"Color: {}\", col); }", "stable");
    assert(described_as(f, "pget"@, "Drawing"@, "指定座標のピクセル色を取得"@,
        seq![("x"@, "i32"@, "X座標"@), ("y"@, "i32"@, "Y座標"@)],
        "Option<u8>"@, "ピクセル色（範囲外の場合 None）"@, "if let Some(col) = pget(10, 20) { println!(\"Color: {}\", col); }"@, "stable"@));
    functions.push(f);
    let f = api_fn("line", "Drawing", "2点間に直線を描画",
        vec![param("x1", "i32", "開始点 X座標"), param("y1", "i32", "開始点 Y座標"), param("x2", "i32", "終了点 X座標"), param("y2", "i32", "終了点 Y座標"), param("col", "u8", "色")],
        "()", "なし", "line(10, 20, 50, 60, 5);", "stable");
    assert(described_as(f, "line"@, "Drawing"@, "2点間に直線を描画"@,
        seq![("x1"@, "i32"@, "開始点 X座標"@), ("y1"@, "i32"@, "開始点 Y座標"@), ("x2"@, "i32"@, "終了点 X座標"@), ("y2"@, "i32"@, "終了点 Y座標"@), ("col"@, "u8"@, "色"@)],
        "()"@, "なし"@, "line(10, 20, 50, 60, 5);"@, "stable"@));
    functions.push(f);
    let f = api_fn("rect", "Drawing", "矩形を描画（枠線）",
        vec![param("x", "i32", "左上 X座標"), param("y", "i32", "左上 Y座標"), param("w", "i32", "幅"), param("h", "i32", "高さ"), param("col", "u8", "色")],
        "()", "なし", "rect(10, 10, 50, 30, 7);", "stable");
    assert(described_as(f, "rect"@, "Drawing"@, "矩形を描画（枠線）"@,
        seq![("x"@, "i32"@, "左上 X座標"@), ("y"@, "i32"@, "左上 Y座標"@), ("w"@, "i32"@, "幅"@), ("h"@, "i32"@, "高さ"@), ("col"@, "u8"@, "色"@)],
        "()"@, "なし"@, "rect(10, 10, 50, 30, 7);"@, "stable"@));
    functions.push(f);
    let f = api_fn("rectfill", "Drawing", "矩形を塗りつぶし",
        vec![param("x", "i32", "左上 X座標"), param("y", "i32", "左上 Y座標"), param("w", "i32", "幅"), param("h", "i32", "高さ"), param("col", "u8", "色")],
        "()", "なし", "rectfill(10, 10, 50, 30, 3);", "stable");
    assert(described_as(f, "rectfill"@, "Drawing"@, "矩形を塗りつぶし"@,
        seq![("x"@, "i32"@, "左上 X座標"@), ("y"@, "i32"@, "左上 Y座標"@), ("w"@, "i32"@, "幅"@), ("h"@, "i32"@, "高さ"@), ("col"@, "u8"@, "色"@)],
        "()"@, "なし"@, "rectfill(10, 10, 50, 30, 3);"@, "stable"@));
    functions.push(f);
    let f = api_fn("circle", "Drawing", "円を描画（枠線）",
        vec![param("x", "i32", "中心 X座標"), param("y", "i32", "中心 Y座標"), param("r", "i32", "半径"), param("col", "u8", "色")],
        "()", "なし", "circle(50, 50, 20, 9);", "stable");
    assert(described_as(f, "circle"@, "Drawing"@, "円を描画（枠線）"@,
        seq![("x"@, "i32"@, "中心 X座標"@), ("y"@, "i32"@, "中心 Y座標"@), ("r"@, "i32"@, "半径"@), ("col"@, "u8"@, "色"@)],
        "()"@, "なし"@, "circle(50, 50, 20, 9);"@, "stable"@));
    functions.push(f);
    let f = api_fn("circfill", "Drawing", "円を塗りつぶし",
        vec![param("x", "i32", "中心 X座標"), param("y", "i32", "中心 Y座標"), param("r", "i32", "半径"), param("col", "u8", "色")],
        "()", "なし", "circfill(50, 50, 20, 12);", "stable");
    assert(described_as(f, "circfill"@, "Drawing"@, "円を塗りつぶし"@,
        seq![("x"@, "i32"@, "中心 X座標"@), ("y"@, "i32"@, "中心 Y座標"@), ("r"@, "i32"@, "半径"@), ("col"@, "u8"@, "色"@)],
        "()"@, "なし"@, "circfill(50, 50, 20, 12);"@, "stable"@));
    functions.push(f);
    let f = api_fn("print", "Drawing", "テキストを画面に描画",
        vec![param("text", "&str", "描画するテキスト"), param("x", "i32", "X座標"), param("y", "i32", "Y座標"), param("col", "u8", "色")],
        "()", "なし", "print(\"Hello, World!\", 10, 10, 7);", "stable");
    assert(described_as(f, "print"@, "Drawing"@, "テキストを画面に描画"@,
        seq![("text"@, "&str"@, "描画するテキスト"@), ("x"@, "i32"@, "X座標"@), ("y"@, "i32"@, "Y座標"@), ("col"@, "u8"@, "色"@)],
        "()"@, "なし"@, "print(\"Hello, World!\", 10, 10, 7);"@, "stable"@));
    functions.push(f);
    let f = api_fn("cls", "Drawing", "画面をクリア",
        vec![param("col", "u8", "クリア色（パレットインデックス）")],
        "()", "なし", "cls(0);", "stable");
    assert(described_as(f, "cls"@, "Drawing"@, "画面をクリア"@,
        seq![("col"@, "u8"@, "クリア色（パレットインデックス）"@)],
        "()"@, "なし"@, "cls(0);"@, "stable"@));
    functions.push(f);
    let f = api_fn("spr", "Sprite", "スプライトを描画",
        vec![param("n", "usize", "スプライト ID"), param("x", "f32", "描画位置 X座標"), param("y", "f32", "描画位置 Y座標")],
        "()", "なし", "spr(0, 100.0, 50.0);", "stable");
    assert(described_as(f, "spr"@, "Sprite"@, "スプライトを描画"@,
        seq![("n"@, "usize"@, "スプライト ID"@), ("x"@, "f32"@, "描画位置 X座標"@), ("y"@, "f32"@, "描画位置 Y座標"@)],
        "()"@, "なし"@, "spr(0, 100.0, 50.0);"@, "stable"@));
    functions.push(f);
    let f = api_fn("btn", "Input", "キーが現在押されているか判定",
        vec![param("key", "Key", "キー定数（Key::Up, Key::Down, Key::Left, Key::Right, Key::Z, Key::X）")],
        "bool", "押下状態", "if btn(Key::Up) { println!(\"Up pressed\"); }", "stable");
    assert(described_as(f, "btn"@, "Input"@, "キーが現在押されているか判定"@,
        seq![("key"@, "Key"@, "キー定数（Key::Up, Key::Down, Key::Left, Key::Right, Key::Z, Key::X）"@)],
        "bool"@, "押下状態"@, "if btn(Key::Up) { println!(\"Up pressed\"); }"@, "stable"@));
    functions.push(f);
    let f = api_fn("btnp", "Input", "キーが押下直後か判定（1フレームのみ true）",
        vec![param("key", "Key", "キー定数")],
        "bool", "押下直後の状態", "if btnp(Key::Z) { println!(\"Z button pressed\"); }", "stable");
    assert(described_as(f, "btnp"@, "Input"@, "キーが押下直後か判定（1フレームのみ true）"@,
        seq![("key"@, "Key"@, "キー定数"@)],
        "bool"@, "押下直後の状態"@, "if btnp(Key::Z) { println!(\"Z button pressed\"); }"@, "stable"@));
    functions.push(f);
    let f = api_fn("camera", "Camera", "カメラ位置を設定",
        vec![param("x", "f32", "カメラ X位置"), param("y", "f32", "カメラ Y位置")],
        "()", "なし", "camera(player_x - 80.0, player_y - 60.0);", "stable");
    assert(described_as(f, "camera"@, "Camera"@, "カメラ位置を設定"@,
        seq![("x"@, "f32"@, "カメラ X位置"@), ("y"@, "f32"@, "カメラ Y位置"@)],
        "()"@, "なし"@, "camera(player_x - 80.0, player_y - 60.0);"@, "stable"@));
    functions.push(f);
    let f = api_fn("zoom", "Camera", "ズームレベルを設定",
        vec![param("scale", "f32", "ズーム倍率（1.0 = 等倍）")],
        "()", "なし", "zoom(2.0);", "stable");
    assert(described_as(f, "zoom"@, "Camera"@, "ズームレベルを設定"@,
        seq![("scale"@, "f32"@, "ズーム倍率（1.0 = 等倍）"@)],
        "()"@, "なし"@, "zoom(2.0);"@, "stable"@));
    functions.push(f);
    let f = api_fn("sfx", "Audio", "効果音を再生",
        vec![param("n", "usize", "サウンド ID")],
        "()", "なし", "sfx(0);", "experimental");
    assert(described_as(f, "sfx"@, "Audio"@, "効果音を再生"@,
        seq![("n"@, "usize"@, "サウンド ID"@)],
        "()"@, "なし"@, "sfx(0);"@, "experimental"@));
    functions.push(f);
    let f = api_fn("music", "Audio", "音楽を再生",
        vec![param("n", "usize", "ミュージック ID")],
        "()", "なし", "music(0);", "experimental");
    assert(described_as(f, "music"@, "Audio"@, "音楽を再生"@,
        seq![("n"@, "usize"@, "ミュージック ID"@)],
        "()"@, "なし"@, "music(0);"@, "experimental"@));
    functions.push(f);
    let f = api_fn("frame_time", "Framework", "前フレームの経過時間をミリ秒で取得",
        Vec::new(),
        "f32", "経過時間（ミリ秒）", "let dt = frame_time();", "stable");
    assert(described_as(f, "frame_time"@, "Framework"@, "前フレームの経過時間をミリ秒で取得"@,
        Seq::<(Seq<char>, Seq<char>, Seq<char>)>::empty(),
        "f32"@, "経過時間（ミリ秒）"@, "let dt = frame_time();"@, "stable"@));
    functions.push(f);
    let mut categories: Vec<String> = Vec::new();
    categories.push(String::from_str("Drawing"));
    categories.push(String::from_str("Sprite"));
    categories.push(String::from_str("Input"));
    categories.push(String::from_str("Camera"));
    categories.push(String::from_str("Audio"));
    categories.push(String::from_str("Framework"));
    categories.push(String::from_str("Animation"));
    categories.push(String::from_str("Particles"));
    categories.push(String::from_str("Resources"));
    let r = ApiReference {
        version: String::from_str("0.1.0"),
        engine_name: String::from_str("Nantaraquad"),
        functions,
        categories,
    };
    assert(api_described(r.functions@));
    r
}

} // verus!
