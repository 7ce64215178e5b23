//! The rules that an engine has when none are given to it.

use crate::rules::{RuleStore, RuleView};
use crate::table::parsed_rules;
use vstd::prelude::*;

verus! {

/// The built-in rules as a rule table: letters of the Arabic script, the
/// two kana syllabaries, the Cyrillic and the Greek alphabet, and the
/// decimal digits of the scripts that have their own.
pub const DEFAULT_RULE_TEXT: &'static str = "\
ا\ta\n\
ب\tb\n\
ت\tt\n\
ث\tth\n\
ج\tj\n\
ح\th\n\
خ\tkh\n\
د\td\n\
ذ\tdh\n\
ر\tr\n\
ز\tz\n\
س\ts\n\
ش\tsh\n\
ص\ts\n\
ض\td\n\
ط\tt\n\
ظ\tz\n\
ع\t'\n\
غ\tgh\n\
ف\tf\n\
ق\tq\n\
ك\tk\n\
ل\tl\n\
م\tm\n\
ن\tn\n\
ه\th\n\
و\tw\n\
ي\ty\n\
ء\t'\n\
آ\ta\n\
أ\ta\n\
إ\ti\n\
ؤ\tw\n\
ئ\ty\n\
ة\th\n\
ى\ta\n\
پ\tp\n\
چ\tch\n\
ژ\tzh\n\
گ\tg\n\
ک\tk\n\
ی\ty\n\
َ\ta\n\
ِ\ti\n\
ُ\tu\n\
ً\tan\n\
ٍ\tin\n\
ٌ\tun\n\
،\t,\n\
؟\t?\n\
؛\t;\n\
ْ\t\n\
ّ\t\n\
و\tv\t0\tfas\n\
ث\ts\t0\tfas\n\
ذ\tz\t0\tfas\n\
ض\tz\t0\tfas\n\
あ\ta\n\
い\ti\n\
う\tu\n\
え\te\n\
お\to\n\
か\tka\n\
が\tga\n\
き\tki\n\
ぎ\tgi\n\
く\tku\n\
ぐ\tgu\n\
け\tke\n\
げ\tge\n\
こ\tko\n\
ご\tgo\n\
さ\tsa\n\
ざ\tza\n\
し\tshi\n\
じ\tji\n\
す\tsu\n\
ず\tzu\n\
せ\tse\n\
ぜ\tze\n\
そ\tso\n\
ぞ\tzo\n\
た\tta\n\
だ\tda\n\
ち\tchi\n\
ぢ\tji\n\
つ\ttsu\n\
づ\tzu\n\
て\tte\n\
で\tde\n\
と\tto\n\
ど\tdo\n\
な\tna\n\
に\tni\n\
ぬ\tnu\n\
ね\tne\n\
の\tno\n\
は\tha\n\
ば\tba\n\
ぱ\tpa\n\
ひ\thi\n\
び\tbi\n\
ぴ\tpi\n\
ふ\tfu\n\
ぶ\tbu\n\
ぷ\tpu\n\
へ\the\n\
べ\tbe\n\
ぺ\tpe\n\
ほ\tho\n\
ぼ\tbo\n\
ぽ\tpo\n\
ま\tma\n\
み\tmi\n\
む\tmu\n\
め\tme\n\
も\tmo\n\
や\tya\n\
ゆ\tyu\n\
よ\tyo\n\
ら\tra\n\
り\tri\n\
る\tru\n\
れ\tre\n\
ろ\tro\n\
わ\twa\n\
ゐ\twi\n\
ゑ\twe\n\
を\two\n\
ん\tn\n\
ゔ\tvu\n\
ぁ\ta\n\
ぃ\ti\n\
ぅ\tu\n\
ぇ\te\n\
ぉ\to\n\
っ\ttsu\n\
ゃ\tya\n\
ゅ\tyu\n\
ょ\tyo\n\
ゎ\twa\n\
ゕ\tka\n\
ゖ\tke\n\
きゃ\tkya\n\
きゅ\tkyu\n\
きょ\tkyo\n\
ぎゃ\tgya\n\
ぎゅ\tgyu\n\
ぎょ\tgyo\n\
しゃ\tsha\n\
しゅ\tshu\n\
しょ\tsho\n\
じゃ\tja\n\
じゅ\tju\n\
じょ\tjo\n\
ちゃ\tcha\n\
ちゅ\tchu\n\
ちょ\tcho\n\
ぢゃ\tja\n\
ぢゅ\tju\n\
ぢょ\tjo\n\
にゃ\tnya\n\
にゅ\tnyu\n\
にょ\tnyo\n\
ひゃ\thya\n\
ひゅ\thyu\n\
ひょ\thyo\n\
びゃ\tbya\n\
びゅ\tbyu\n\
びょ\tbyo\n\
ぴゃ\tpya\n\
ぴゅ\tpyu\n\
ぴょ\tpyo\n\
みゃ\tmya\n\
みゅ\tmyu\n\
みょ\tmyo\n\
りゃ\trya\n\
りゅ\tryu\n\
りょ\tryo\n\
ん\tn'\t10\t\t\tあ\n\
ん\tn'\t10\t\t\tい\n\
ん\tn'\t10\t\t\tう\n\
ん\tn'\t10\t\t\tえ\n\
ん\tn'\t10\t\t\tお\n\
ん\tn'\t10\t\t\tな\n\
ん\tn'\t10\t\t\tに\n\
ん\tn'\t10\t\t\tぬ\n\
ん\tn'\t10\t\t\tね\n\
ん\tn'\t10\t\t\tの\n\
ん\tn'\t10\t\t\tや\n\
ん\tn'\t10\t\t\tゆ\n\
ん\tn'\t10\t\t\tよ\n\
ん\tn'\t10\t\t\tゃ\n\
ん\tn'\t10\t\t\tゅ\n\
ん\tn'\t10\t\t\tょ\n\
っ\tk\t10\t\t\tか\n\
っ\tg\t10\t\t\tが\n\
っ\tk\t10\t\t\tき\n\
っ\tg\t10\t\t\tぎ\n\
っ\tk\t10\t\t\tく\n\
っ\tg\t10\t\t\tぐ\n\
っ\tk\t10\t\t\tけ\n\
っ\tg\t10\t\t\tげ\n\
っ\tk\t10\t\t\tこ\n\
っ\tg\t10\t\t\tご\n\
っ\ts\t10\t\t\tさ\n\
っ\tz\t10\t\t\tざ\n\
っ\ts\t10\t\t\tし\n\
っ\tj\t10\t\t\tじ\n\
っ\ts\t10\t\t\tす\n\
っ\tz\t10\t\t\tず\n\
っ\ts\t10\t\t\tせ\n\
っ\tz\t10\t\t\tぜ\n\
っ\ts\t10\t\t\tそ\n\
っ\tz\t10\t\t\tぞ\n\
っ\tt\t10\t\t\tた\n\
っ\td\t10\t\t\tだ\n\
っ\tt\t10\t\t\tち\n\
っ\tj\t10\t\t\tぢ\n\
っ\tt\t10\t\t\tつ\n\
っ\tz\t10\t\t\tづ\n\
っ\tt\t10\t\t\tて\n\
っ\td\t10\t\t\tで\n\
っ\tt\t10\t\t\tと\n\
っ\td\t10\t\t\tど\n\
っ\th\t10\t\t\tは\n\
っ\tb\t10\t\t\tば\n\
っ\tp\t10\t\t\tぱ\n\
っ\th\t10\t\t\tひ\n\
っ\tb\t10\t\t\tび\n\
っ\tp\t10\t\t\tぴ\n\
っ\tf\t10\t\t\tふ\n\
っ\tb\t10\t\t\tぶ\n\
っ\tp\t10\t\t\tぷ\n\
っ\th\t10\t\t\tへ\n\
っ\tb\t10\t\t\tべ\n\
っ\tp\t10\t\t\tぺ\n\
っ\th\t10\t\t\tほ\n\
っ\tb\t10\t\t\tぼ\n\
っ\tp\t10\t\t\tぽ\n\
ア\ta\n\
イ\ti\n\
ウ\tu\n\
エ\te\n\
オ\to\n\
カ\tka\n\
ガ\tga\n\
キ\tki\n\
ギ\tgi\n\
ク\tku\n\
グ\tgu\n\
ケ\tke\n\
ゲ\tge\n\
コ\tko\n\
ゴ\tgo\n\
サ\tsa\n\
ザ\tza\n\
シ\tshi\n\
ジ\tji\n\
ス\tsu\n\
ズ\tzu\n\
セ\tse\n\
ゼ\tze\n\
ソ\tso\n\
ゾ\tzo\n\
タ\tta\n\
ダ\tda\n\
チ\tchi\n\
ヂ\tji\n\
ツ\ttsu\n\
ヅ\tzu\n\
テ\tte\n\
デ\tde\n\
ト\tto\n\
ド\tdo\n\
ナ\tna\n\
ニ\tni\n\
ヌ\tnu\n\
ネ\tne\n\
ノ\tno\n\
ハ\tha\n\
バ\tba\n\
パ\tpa\n\
ヒ\thi\n\
ビ\tbi\n\
ピ\tpi\n\
フ\tfu\n\
ブ\tbu\n\
プ\tpu\n\
ヘ\the\n\
ベ\tbe\n\
ペ\tpe\n\
ホ\tho\n\
ボ\tbo\n\
ポ\tpo\n\
マ\tma\n\
ミ\tmi\n\
ム\tmu\n\
メ\tme\n\
モ\tmo\n\
ヤ\tya\n\
ユ\tyu\n\
ヨ\tyo\n\
ラ\tra\n\
リ\tri\n\
ル\tru\n\
レ\tre\n\
ロ\tro\n\
ワ\twa\n\
ヰ\twi\n\
ヱ\twe\n\
ヲ\two\n\
ン\tn\n\
ヴ\tvu\n\
ヷ\tva\n\
ヸ\tvi\n\
ヹ\tve\n\
ヺ\tvo\n\
ァ\ta\n\
ィ\ti\n\
ゥ\tu\n\
ェ\te\n\
ォ\to\n\
ッ\ttsu\n\
ャ\tya\n\
ュ\tyu\n\
ョ\tyo\n\
ヮ\twa\n\
ヵ\tka\n\
ヶ\tke\n\
キャ\tkya\n\
キュ\tkyu\n\
キョ\tkyo\n\
ギャ\tgya\n\
ギュ\tgyu\n\
ギョ\tgyo\n\
シャ\tsha\n\
シュ\tshu\n\
ショ\tsho\n\
ジャ\tja\n\
ジュ\tju\n\
ジョ\tjo\n\
チャ\tcha\n\
チュ\tchu\n\
チョ\tcho\n\
ヂャ\tja\n\
ヂュ\tju\n\
ヂョ\tjo\n\
ニャ\tnya\n\
ニュ\tnyu\n\
ニョ\tnyo\n\
ヒャ\thya\n\
ヒュ\thyu\n\
ヒョ\thyo\n\
ビャ\tbya\n\
ビュ\tbyu\n\
ビョ\tbyo\n\
ピャ\tpya\n\
ピュ\tpyu\n\
ピョ\tpyo\n\
ミャ\tmya\n\
ミュ\tmyu\n\
ミョ\tmyo\n\
リャ\trya\n\
リュ\tryu\n\
リョ\tryo\n\
ヸャ\tvya\n\
ヸュ\tvyu\n\
ヸョ\tvyo\n\
ン\tn'\t10\t\t\tア\n\
ン\tn'\t10\t\t\tイ\n\
ン\tn'\t10\t\t\tウ\n\
ン\tn'\t10\t\t\tエ\n\
ン\tn'\t10\t\t\tオ\n\
ン\tn'\t10\t\t\tナ\n\
ン\tn'\t10\t\t\tニ\n\
ン\tn'\t10\t\t\tヌ\n\
ン\tn'\t10\t\t\tネ\n\
ン\tn'\t10\t\t\tノ\n\
ン\tn'\t10\t\t\tヤ\n\
ン\tn'\t10\t\t\tユ\n\
ン\tn'\t10\t\t\tヨ\n\
ン\tn'\t10\t\t\tャ\n\
ン\tn'\t10\t\t\tュ\n\
ン\tn'\t10\t\t\tョ\n\
ッ\tk\t10\t\t\tカ\n\
ッ\tg\t10\t\t\tガ\n\
ッ\tk\t10\t\t\tキ\n\
ッ\tg\t10\t\t\tギ\n\
ッ\tk\t10\t\t\tク\n\
ッ\tg\t10\t\t\tグ\n\
ッ\tk\t10\t\t\tケ\n\
ッ\tg\t10\t\t\tゲ\n\
ッ\tk\t10\t\t\tコ\n\
ッ\tg\t10\t\t\tゴ\n\
ッ\ts\t10\t\t\tサ\n\
ッ\tz\t10\t\t\tザ\n\
ッ\ts\t10\t\t\tシ\n\
ッ\tj\t10\t\t\tジ\n\
ッ\ts\t10\t\t\tス\n\
ッ\tz\t10\t\t\tズ\n\
ッ\ts\t10\t\t\tセ\n\
ッ\tz\t10\t\t\tゼ\n\
ッ\ts\t10\t\t\tソ\n\
ッ\tz\t10\t\t\tゾ\n\
ッ\tt\t10\t\t\tタ\n\
ッ\td\t10\t\t\tダ\n\
ッ\tt\t10\t\t\tチ\n\
ッ\tj\t10\t\t\tヂ\n\
ッ\tt\t10\t\t\tツ\n\
ッ\tz\t10\t\t\tヅ\n\
ッ\tt\t10\t\t\tテ\n\
ッ\td\t10\t\t\tデ\n\
ッ\tt\t10\t\t\tト\n\
ッ\td\t10\t\t\tド\n\
ッ\th\t10\t\t\tハ\n\
ッ\tb\t10\t\t\tバ\n\
ッ\tp\t10\t\t\tパ\n\
ッ\th\t10\t\t\tヒ\n\
ッ\tb\t10\t\t\tビ\n\
ッ\tp\t10\t\t\tピ\n\
ッ\tf\t10\t\t\tフ\n\
ッ\tb\t10\t\t\tブ\n\
ッ\tp\t10\t\t\tプ\n\
ッ\th\t10\t\t\tヘ\n\
ッ\tb\t10\t\t\tベ\n\
ッ\tp\t10\t\t\tペ\n\
ッ\th\t10\t\t\tホ\n\
ッ\tb\t10\t\t\tボ\n\
ッ\tp\t10\t\t\tポ\n\
а\ta\n\
А\tA\n\
б\tb\n\
Б\tB\n\
в\tv\n\
В\tV\n\
г\tg\n\
Г\tG\n\
д\td\n\
Д\tD\n\
е\te\n\
Е\tE\n\
ё\tyo\n\
Ё\tYo\n\
ж\tzh\n\
Ж\tZh\n\
з\tz\n\
З\tZ\n\
и\ti\n\
И\tI\n\
й\ty\n\
Й\tY\n\
к\tk\n\
К\tK\n\
л\tl\n\
Л\tL\n\
м\tm\n\
М\tM\n\
н\tn\n\
Н\tN\n\
о\to\n\
О\tO\n\
п\tp\n\
П\tP\n\
р\tr\n\
Р\tR\n\
с\ts\n\
С\tS\n\
т\tt\n\
Т\tT\n\
у\tu\n\
У\tU\n\
ф\tf\n\
Ф\tF\n\
х\tkh\n\
Х\tKh\n\
ц\tts\n\
Ц\tTs\n\
ч\tch\n\
Ч\tCh\n\
ш\tsh\n\
Ш\tSh\n\
щ\tshch\n\
Щ\tShch\n\
ы\ty\n\
Ы\tY\n\
э\te\n\
Э\tE\n\
ю\tyu\n\
Ю\tYu\n\
я\tya\n\
Я\tYa\n\
є\tye\n\
Є\tYe\n\
і\ti\n\
І\tI\n\
ї\tyi\n\
Ї\tYi\n\
ґ\tg\n\
Ґ\tG\n\
ў\tw\n\
Ў\tW\n\
ъ\t\n\
Ъ\t\n\
ь\t\n\
Ь\t\n\
г\th\t0\tukr\n\
Г\tH\t0\tukr\n\
и\ty\t0\tukr\n\
И\tY\t0\tukr\n\
α\ta\n\
Α\tA\n\
β\tb\n\
Β\tB\n\
γ\tg\n\
Γ\tG\n\
δ\td\n\
Δ\tD\n\
ε\te\n\
Ε\tE\n\
ζ\tz\n\
Ζ\tZ\n\
η\te\n\
Η\tE\n\
θ\tth\n\
Θ\tTh\n\
ι\ti\n\
Ι\tI\n\
κ\tk\n\
Κ\tK\n\
λ\tl\n\
Λ\tL\n\
μ\tm\n\
Μ\tM\n\
ν\tn\n\
Ν\tN\n\
ξ\tx\n\
Ξ\tX\n\
ο\to\n\
Ο\tO\n\
π\tp\n\
Π\tP\n\
ρ\tr\n\
Ρ\tR\n\
σ\ts\n\
Σ\tS\n\
τ\tt\n\
Τ\tT\n\
υ\ty\n\
Υ\tY\n\
φ\tph\n\
Φ\tPh\n\
χ\tch\n\
Χ\tCh\n\
ψ\tps\n\
Ψ\tPs\n\
ω\to\n\
Ω\tO\n\
ς\ts\n\
ά\ta\n\
έ\te\n\
ή\te\n\
ί\ti\n\
ό\to\n\
ύ\ty\n\
ώ\to\n\
٠\t0\n\
١\t1\n\
٢\t2\n\
٣\t3\n\
٤\t4\n\
٥\t5\n\
٦\t6\n\
٧\t7\n\
٨\t8\n\
٩\t9\n\
۰\t0\n\
۱\t1\n\
۲\t2\n\
۳\t3\n\
۴\t4\n\
۵\t5\n\
۶\t6\n\
۷\t7\n\
۸\t8\n\
۹\t9\n\
߀\t0\n\
߁\t1\n\
߂\t2\n\
߃\t3\n\
߄\t4\n\
߅\t5\n\
߆\t6\n\
߇\t7\n\
߈\t8\n\
߉\t9\n\
०\t0\n\
१\t1\n\
२\t2\n\
३\t3\n\
४\t4\n\
५\t5\n\
६\t6\n\
७\t7\n\
८\t8\n\
९\t9\n\
০\t0\n\
১\t1\n\
২\t2\n\
৩\t3\n\
৪\t4\n\
৫\t5\n\
৬\t6\n\
৭\t7\n\
৮\t8\n\
৯\t9\n\
੦\t0\n\
੧\t1\n\
੨\t2\n\
੩\t3\n\
੪\t4\n\
੫\t5\n\
੬\t6\n\
੭\t7\n\
੮\t8\n\
੯\t9\n\
૦\t0\n\
૧\t1\n\
૨\t2\n\
૩\t3\n\
૪\t4\n\
૫\t5\n\
૬\t6\n\
૭\t7\n\
૮\t8\n\
૯\t9\n\
୦\t0\n\
୧\t1\n\
୨\t2\n\
୩\t3\n\
୪\t4\n\
୫\t5\n\
୬\t6\n\
୭\t7\n\
୮\t8\n\
୯\t9\n\
௦\t0\n\
௧\t1\n\
௨\t2\n\
௩\t3\n\
௪\t4\n\
௫\t5\n\
௬\t6\n\
௭\t7\n\
௮\t8\n\
௯\t9\n\
౦\t0\n\
౧\t1\n\
౨\t2\n\
౩\t3\n\
౪\t4\n\
౫\t5\n\
౬\t6\n\
౭\t7\n\
౮\t8\n\
౯\t9\n\
೦\t0\n\
೧\t1\n\
೨\t2\n\
೩\t3\n\
೪\t4\n\
೫\t5\n\
೬\t6\n\
೭\t7\n\
೮\t8\n\
೯\t9\n\
൦\t0\n\
൧\t1\n\
൨\t2\n\
൩\t3\n\
൪\t4\n\
൫\t5\n\
൬\t6\n\
൭\t7\n\
൮\t8\n\
൯\t9\n\
๐\t0\n\
๑\t1\n\
๒\t2\n\
๓\t3\n\
๔\t4\n\
๕\t5\n\
๖\t6\n\
๗\t7\n\
๘\t8\n\
๙\t9\n\
໐\t0\n\
໑\t1\n\
໒\t2\n\
໓\t3\n\
໔\t4\n\
໕\t5\n\
໖\t6\n\
໗\t7\n\
໘\t8\n\
໙\t9\n\
༠\t0\n\
༡\t1\n\
༢\t2\n\
༣\t3\n\
༤\t4\n\
༥\t5\n\
༦\t6\n\
༧\t7\n\
༨\t8\n\
༩\t9\n\
၀\t0\n\
၁\t1\n\
၂\t2\n\
၃\t3\n\
၄\t4\n\
၅\t5\n\
၆\t6\n\
၇\t7\n\
၈\t8\n\
၉\t9\n\
០\t0\n\
១\t1\n\
២\t2\n\
៣\t3\n\
៤\t4\n\
៥\t5\n\
៦\t6\n\
៧\t7\n\
៨\t8\n\
៩\t9\n\
᠐\t0\n\
᠑\t1\n\
᠒\t2\n\
᠓\t3\n\
᠔\t4\n\
᠕\t5\n\
᠖\t6\n\
᠗\t7\n\
᠘\t8\n\
᠙\t9\n\
０\t0\n\
１\t1\n\
２\t2\n\
３\t3\n\
４\t4\n\
５\t5\n\
６\t6\n\
７\t7\n\
８\t8\n\
９\t9";

/// The built-in rules: those of the built-in rule table, in the order of
/// its lines.
pub open spec fn default_rules() -> Seq<RuleView> {
    parsed_rules(DEFAULT_RULE_TEXT@)
}

/// A store of the built-in rules.
pub fn default_store() -> (store: RuleStore)
    ensures
        store@ == default_rules(),
        store@.len() <= usize::MAX,
{
    RuleStore::parse(DEFAULT_RULE_TEXT)
}

} // verus!
