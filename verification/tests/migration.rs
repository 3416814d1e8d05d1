//! Migration of the historical keystore layout: the genuine legacy
//! records, determinism, and the rejection of malformed inputs.

use svarog_core::algo::{CoreError, Curve, Scheme};
use svarog_core::codec::encode_keystore;
use svarog_core::keystore::PaillierKey;
use svarog_core::legacy::{convert, migrate_elgamal};

/// A genuine legacy record, byte for byte.
const LEGACY: &str = r#"[{"u_i":{"curve":"secp256k1","scalar":[159,28,160,25,241,160,134,212,88,52,197,59,31,141,193,140,175,223,198,156,105,183,228,170,56,191,101,32,228,155,201,100]},"y_i":{"curve":"secp256k1","point":[3,188,221,191,232,31,192,249,251,79,24,214,173,158,58,130,173,195,85,221,39,89,55,53,31,236,229,23,4,134,241,248,64]},"dk":{"p":"144519320196421578229942353187397320789835487363686004656511762763016459887724566682104366580187692454533533052522180526436396260744826145216715433848635129390376697628687070245511313951815666449855952058327501991387920847139245959252127744098357868091625838637412515293041530446447123232557908781716027823747","q":"162423912167466020637558236047946719448051566011026688962372788864221326298622626910947393262518272043701031067462156244650501577003176709927712757865230713994200543577363898570480413297682005303865311095282095357629712562948842578801623086822248888681048423761728926684290770242458762429284494534875862187177"},"ek":{"n":"23473393370085476595861095346748774887630760195002715122862858363706842155119889810464513224717355554760308754899814135946372542426223376650268153608193286917177002559327187669996305421145955430253475928534348608759307298789654079165905402459759161903582577771928044228939170503061649158015974898140164031644462684405367684443406082293427878829099670406417046973043609162452857894050890836127817161214770222869658832239725916974838073526503714564807601983136099348335493678678160564409868602353477598524877399585585485999080473431692390703472427097506418634121163684951832091605874759644387059373992495921634879492219"},"party_index":2},{"y":{"curve":"secp256k1","point":[3,0,127,54,153,244,219,61,161,81,214,28,48,56,171,142,119,20,104,251,248,73,25,43,80,38,53,45,128,143,105,79,145]},"x_i":{"curve":"secp256k1","scalar":[171,164,33,186,86,196,250,230,141,199,213,197,21,157,147,219,52,82,118,245,241,93,43,31,199,241,45,54,56,206,70,82]}},2,[{"parameters":{"threshold":1,"share_count":3},"commitments":[{"curve":"secp256k1","point":[3,167,56,101,31,186,186,107,181,2,36,37,236,37,234,156,92,47,128,13,176,183,34,88,37,220,209,238,176,232,224,73,25]},{"curve":"secp256k1","point":[3,73,207,56,31,243,94,160,194,40,206,62,141,213,42,241,124,101,243,85,199,221,232,12,213,77,30,235,165,141,44,8,20]}]},{"parameters":{"threshold":1,"share_count":3},"commitments":[{"curve":"secp256k1","point":[3,188,221,191,232,31,192,249,251,79,24,214,173,158,58,130,173,195,85,221,39,89,55,53,31,236,229,23,4,134,241,248,64]},{"curve":"secp256k1","point":[2,64,134,225,249,35,226,250,180,62,21,166,175,25,62,169,31,254,85,32,233,54,90,55,29,176,188,35,33,17,218,108,124]}]},{"parameters":{"threshold":1,"share_count":3},"commitments":[{"curve":"secp256k1","point":[3,104,152,109,172,80,181,128,183,187,230,150,139,93,18,217,190,234,35,240,30,179,74,147,18,163,194,199,154,245,239,137,141]},{"curve":"secp256k1","point":[2,171,18,187,36,7,249,2,154,28,213,78,24,23,232,64,104,156,212,126,49,214,41,1,134,120,77,221,178,109,71,220,34]}]}],[{"n":"30138873334387118954755039585204388732866272135622030996476255424630672316865349999114792934071903736508725998179112824550135290997378758151410250352341656330322772641534760418458809673230258975332764053664958477766020795422424992894301951711378020728402792524479653251949853317809318484539184741057975180651874633716501578869281554574002992325149535767191371862562846183579283286674241838354429335906824440870083429162044606007072987221510583518649231291840109023171903744240844327398724426885275679416573891931542687850641113720602873334262082238732097810063715676022023771419978697692331360045516665079253255249531"},{"n":"23473393370085476595861095346748774887630760195002715122862858363706842155119889810464513224717355554760308754899814135946372542426223376650268153608193286917177002559327187669996305421145955430253475928534348608759307298789654079165905402459759161903582577771928044228939170503061649158015974898140164031644462684405367684443406082293427878829099670406417046973043609162452857894050890836127817161214770222869658832239725916974838073526503714564807601983136099348335493678678160564409868602353477598524877399585585485999080473431692390703472427097506418634121163684951832091605874759644387059373992495921634879492219"},{"n":"12155852436809696805078203204415189681435578078391722867935032215955864901582962714329148060959630388883295001487253528760624395838661673083566160019964581534100299266548674926971686692809217378206950021077828900616805410881432388365547358765046142900941582904094554256632521357578063612974702768158589226099994721955264178546701634154711474292858129218808194479868399771652823013093613395588617166086092862417190203859475414650253512822960714673123883260401006832661043391004258986758434131610379469569975202243737972104494837294368526083098201661723209674592705870599467821271124158033018918409972593022052378028009"}],{"curve":"secp256k1","point":[3,0,127,54,153,244,219,61,161,81,214,28,48,56,171,142,119,20,104,251,248,73,25,43,80,38,53,45,128,143,105,79,145]},[99,231,68,198,84,42,55,52,6,186,43,26,182,141,57,119,232,71,195,136,110,136,213,94,237,91,244,194,5,166,167,61]]"#;

/// The genuine records of the two other parties of the same round.
const LEGACY_SECOND: &str = r#"[{"u_i":{"curve":"secp256k1","scalar":[117,171,141,21,154,238,169,217,209,54,95,218,174,178,225,107,68,100,22,254,243,239,169,79,93,243,161,223,94,178,131,14]},"y_i":{"curve":"secp256k1","point":[3,167,56,101,31,186,186,107,181,2,36,37,236,37,234,156,92,47,128,13,176,183,34,88,37,220,209,238,176,232,224,73,25]},"dk":{"p":"177665742072309883143467484627460392168675407867553005055209690936323245129946970113622282374513552950392495539977130395122209421634989098303385066068787471594944976391556730052086847224184608975077203506229585761668228534324865528289438254620902812449724422907417462277206592919132306874119761553570067724503","q":"169638068559782392041081557061917979378195815103918825733231657988531521259027151598927887603370261956937564433319566859191167240335426293622012511758355757483387927669873186820603739914786303447534151323220048229489869637892014009688302004341594877589000041514756074385199304903786276468741451274701458087677"},"ek":{"n":"30138873334387118954755039585204388732866272135622030996476255424630672316865349999114792934071903736508725998179112824550135290997378758151410250352341656330322772641534760418458809673230258975332764053664958477766020795422424992894301951711378020728402792524479653251949853317809318484539184741057975180651874633716501578869281554574002992325149535767191371862562846183579283286674241838354429335906824440870083429162044606007072987221510583518649231291840109023171903744240844327398724426885275679416573891931542687850641113720602873334262082238732097810063715676022023771419978697692331360045516665079253255249531"},"party_index":1},{"y":{"curve":"secp256k1","point":[3,0,127,54,153,244,219,61,161,81,214,28,48,56,171,142,119,20,104,251,248,73,25,43,80,38,53,45,128,143,105,79,145]},"x_i":{"curve":"secp256k1","scalar":[135,76,38,244,84,18,150,189,107,67,186,79,247,89,121,115,140,35,117,208,121,92,229,90,120,237,184,110,26,130,127,204]}},1,[{"parameters":{"threshold":1,"share_count":3},"commitments":[{"curve":"secp256k1","point":[3,167,56,101,31,186,186,107,181,2,36,37,236,37,234,156,92,47,128,13,176,183,34,88,37,220,209,238,176,232,224,73,25]},{"curve":"secp256k1","point":[3,73,207,56,31,243,94,160,194,40,206,62,141,213,42,241,124,101,243,85,199,221,232,12,213,77,30,235,165,141,44,8,20]}]},{"parameters":{"threshold":1,"share_count":3},"commitments":[{"curve":"secp256k1","point":[3,188,221,191,232,31,192,249,251,79,24,214,173,158,58,130,173,195,85,221,39,89,55,53,31,236,229,23,4,134,241,248,64]},{"curve":"secp256k1","point":[2,64,134,225,249,35,226,250,180,62,21,166,175,25,62,169,31,254,85,32,233,54,90,55,29,176,188,35,33,17,218,108,124]}]},{"parameters":{"threshold":1,"share_count":3},"commitments":[{"curve":"secp256k1","point":[3,104,152,109,172,80,181,128,183,187,230,150,139,93,18,217,190,234,35,240,30,179,74,147,18,163,194,199,154,245,239,137,141]},{"curve":"secp256k1","point":[2,171,18,187,36,7,249,2,154,28,213,78,24,23,232,64,104,156,212,126,49,214,41,1,134,120,77,221,178,109,71,220,34]}]}],[{"n":"30138873334387118954755039585204388732866272135622030996476255424630672316865349999114792934071903736508725998179112824550135290997378758151410250352341656330322772641534760418458809673230258975332764053664958477766020795422424992894301951711378020728402792524479653251949853317809318484539184741057975180651874633716501578869281554574002992325149535767191371862562846183579283286674241838354429335906824440870083429162044606007072987221510583518649231291840109023171903744240844327398724426885275679416573891931542687850641113720602873334262082238732097810063715676022023771419978697692331360045516665079253255249531"},{"n":"23473393370085476595861095346748774887630760195002715122862858363706842155119889810464513224717355554760308754899814135946372542426223376650268153608193286917177002559327187669996305421145955430253475928534348608759307298789654079165905402459759161903582577771928044228939170503061649158015974898140164031644462684405367684443406082293427878829099670406417046973043609162452857894050890836127817161214770222869658832239725916974838073526503714564807601983136099348335493678678160564409868602353477598524877399585585485999080473431692390703472427097506418634121163684951832091605874759644387059373992495921634879492219"},{"n":"12155852436809696805078203204415189681435578078391722867935032215955864901582962714329148060959630388883295001487253528760624395838661673083566160019964581534100299266548674926971686692809217378206950021077828900616805410881432388365547358765046142900941582904094554256632521357578063612974702768158589226099994721955264178546701634154711474292858129218808194479868399771652823013093613395588617166086092862417190203859475414650253512822960714673123883260401006832661043391004258986758434131610379469569975202243737972104494837294368526083098201661723209674592705870599467821271124158033018918409972593022052378028009"}],{"curve":"secp256k1","point":[3,0,127,54,153,244,219,61,161,81,214,28,48,56,171,142,119,20,104,251,248,73,25,43,80,38,53,45,128,143,105,79,145]},[99,231,68,198,84,42,55,52,6,186,43,26,182,141,57,119,232,71,195,136,110,136,213,94,237,91,244,194,5,166,167,61]]"#;

const LEGACY_THIRD: &str = r#"[{"u_i":{"curve":"secp256k1","scalar":[78,43,254,254,196,209,1,230,31,84,121,197,10,212,188,18,170,95,115,246,82,253,177,215,83,9,155,50,137,30,174,21]},"y_i":{"curve":"secp256k1","point":[3,104,152,109,172,80,181,128,183,187,230,150,139,93,18,217,190,234,35,240,30,179,74,147,18,163,194,199,154,245,239,137,141]},"dk":{"p":"132200702950717693943805772232346223907838643596114467614074630182382032614396716976370914186252281516502982534229592573520579829072211309014777161386153433798482907160555548226223578077869034886608997499770311609199337568328119799781982075613788915821398661931651008639826037737726221218828567507106035773749","q":"91949983362351742010052616301772818698242426566752181424203243540077277108567689417896997953884926300818104385461015402637582711861572319084029607494419086377496382531884194555547038811442819461440085701153170290017089854098766004904923568164776988658589395096103243844344303380832529188906643365430230320741"},"ek":{"n":"12155852436809696805078203204415189681435578078391722867935032215955864901582962714329148060959630388883295001487253528760624395838661673083566160019964581534100299266548674926971686692809217378206950021077828900616805410881432388365547358765046142900941582904094554256632521357578063612974702768158589226099994721955264178546701634154711474292858129218808194479868399771652823013093613395588617166086092862417190203859475414650253512822960714673123883260401006832661043391004258986758434131610379469569975202243737972104494837294368526083098201661723209674592705870599467821271124158033018918409972593022052378028009"},"party_index":3},{"y":{"curve":"secp256k1","point":[3,0,127,54,153,244,219,61,161,81,214,28,48,56,171,142,119,20,104,251,248,73,25,43,80,38,53,45,128,143,105,79,145]},"x_i":{"curve":"secp256k1","scalar":[207,252,28,128,89,119,95,15,176,75,241,58,51,225,174,66,220,129,120,27,105,93,112,229,22,244,161,254,87,26,12,216]}},3,[{"parameters":{"threshold":1,"share_count":3},"commitments":[{"curve":"secp256k1","point":[3,167,56,101,31,186,186,107,181,2,36,37,236,37,234,156,92,47,128,13,176,183,34,88,37,220,209,238,176,232,224,73,25]},{"curve":"secp256k1","point":[3,73,207,56,31,243,94,160,194,40,206,62,141,213,42,241,124,101,243,85,199,221,232,12,213,77,30,235,165,141,44,8,20]}]},{"parameters":{"threshold":1,"share_count":3},"commitments":[{"curve":"secp256k1","point":[3,188,221,191,232,31,192,249,251,79,24,214,173,158,58,130,173,195,85,221,39,89,55,53,31,236,229,23,4,134,241,248,64]},{"curve":"secp256k1","point":[2,64,134,225,249,35,226,250,180,62,21,166,175,25,62,169,31,254,85,32,233,54,90,55,29,176,188,35,33,17,218,108,124]}]},{"parameters":{"threshold":1,"share_count":3},"commitments":[{"curve":"secp256k1","point":[3,104,152,109,172,80,181,128,183,187,230,150,139,93,18,217,190,234,35,240,30,179,74,147,18,163,194,199,154,245,239,137,141]},{"curve":"secp256k1","point":[2,171,18,187,36,7,249,2,154,28,213,78,24,23,232,64,104,156,212,126,49,214,41,1,134,120,77,221,178,109,71,220,34]}]}],[{"n":"30138873334387118954755039585204388732866272135622030996476255424630672316865349999114792934071903736508725998179112824550135290997378758151410250352341656330322772641534760418458809673230258975332764053664958477766020795422424992894301951711378020728402792524479653251949853317809318484539184741057975180651874633716501578869281554574002992325149535767191371862562846183579283286674241838354429335906824440870083429162044606007072987221510583518649231291840109023171903744240844327398724426885275679416573891931542687850641113720602873334262082238732097810063715676022023771419978697692331360045516665079253255249531"},{"n":"23473393370085476595861095346748774887630760195002715122862858363706842155119889810464513224717355554760308754899814135946372542426223376650268153608193286917177002559327187669996305421145955430253475928534348608759307298789654079165905402459759161903582577771928044228939170503061649158015974898140164031644462684405367684443406082293427878829099670406417046973043609162452857894050890836127817161214770222869658832239725916974838073526503714564807601983136099348335493678678160564409868602353477598524877399585585485999080473431692390703472427097506418634121163684951832091605874759644387059373992495921634879492219"},{"n":"12155852436809696805078203204415189681435578078391722867935032215955864901582962714329148060959630388883295001487253528760624395838661673083566160019964581534100299266548674926971686692809217378206950021077828900616805410881432388365547358765046142900941582904094554256632521357578063612974702768158589226099994721955264178546701634154711474292858129218808194479868399771652823013093613395588617166086092862417190203859475414650253512822960714673123883260401006832661043391004258986758434131610379469569975202243737972104494837294368526083098201661723209674592705870599467821271124158033018918409972593022052378028009"}],{"curve":"secp256k1","point":[3,0,127,54,153,244,219,61,161,81,214,28,48,56,171,142,119,20,104,251,248,73,25,43,80,38,53,45,128,143,105,79,145]},[99,231,68,198,84,42,55,52,6,186,43,26,182,141,57,119,232,71,195,136,110,136,213,94,237,91,244,194,5,166,167,61]]"#;

const LEGACY_WIDE_SCALAR: &str = r#"[{"u_i":{"curve":"secp256k1","scalar":[255,255,255,255,255,255,255,255,255,255,255,255,255,255,255,255,255,255,255,255,255,255,255,255,255,255,255,255,255,255,255,255]},"y_i":{"curve":"secp256k1","point":[3,188,221,191,232,31,192,249,251,79,24,214,173,158,58,130,173,195,85,221,39,89,55,53,31,236,229,23,4,134,241,248,64]},"dk":{"p":"144519320196421578229942353187397320789835487363686004656511762763016459887724566682104366580187692454533533052522180526436396260744826145216715433848635129390376697628687070245511313951815666449855952058327501991387920847139245959252127744098357868091625838637412515293041530446447123232557908781716027823747","q":"162423912167466020637558236047946719448051566011026688962372788864221326298622626910947393262518272043701031067462156244650501577003176709927712757865230713994200543577363898570480413297682005303865311095282095357629712562948842578801623086822248888681048423761728926684290770242458762429284494534875862187177"},"ek":{"n":"23473393370085476595861095346748774887630760195002715122862858363706842155119889810464513224717355554760308754899814135946372542426223376650268153608193286917177002559327187669996305421145955430253475928534348608759307298789654079165905402459759161903582577771928044228939170503061649158015974898140164031644462684405367684443406082293427878829099670406417046973043609162452857894050890836127817161214770222869658832239725916974838073526503714564807601983136099348335493678678160564409868602353477598524877399585585485999080473431692390703472427097506418634121163684951832091605874759644387059373992495921634879492219"},"party_index":2},{"y":{"curve":"secp256k1","point":[3,0,127,54,153,244,219,61,161,81,214,28,48,56,171,142,119,20,104,251,248,73,25,43,80,38,53,45,128,143,105,79,145]},"x_i":{"curve":"secp256k1","scalar":[171,164,33,186,86,196,250,230,141,199,213,197,21,157,147,219,52,82,118,245,241,93,43,31,199,241,45,54,56,206,70,82]}},2,[{"parameters":{"threshold":1,"share_count":3},"commitments":[{"curve":"secp256k1","point":[3,167,56,101,31,186,186,107,181,2,36,37,236,37,234,156,92,47,128,13,176,183,34,88,37,220,209,238,176,232,224,73,25]},{"curve":"secp256k1","point":[3,73,207,56,31,243,94,160,194,40,206,62,141,213,42,241,124,101,243,85,199,221,232,12,213,77,30,235,165,141,44,8,20]}]},{"parameters":{"threshold":1,"share_count":3},"commitments":[{"curve":"secp256k1","point":[3,188,221,191,232,31,192,249,251,79,24,214,173,158,58,130,173,195,85,221,39,89,55,53,31,236,229,23,4,134,241,248,64]},{"curve":"secp256k1","point":[2,64,134,225,249,35,226,250,180,62,21,166,175,25,62,169,31,254,85,32,233,54,90,55,29,176,188,35,33,17,218,108,124]}]},{"parameters":{"threshold":1,"share_count":3},"commitments":[{"curve":"secp256k1","point":[3,104,152,109,172,80,181,128,183,187,230,150,139,93,18,217,190,234,35,240,30,179,74,147,18,163,194,199,154,245,239,137,141]},{"curve":"secp256k1","point":[2,171,18,187,36,7,249,2,154,28,213,78,24,23,232,64,104,156,212,126,49,214,41,1,134,120,77,221,178,109,71,220,34]}]}],[{"n":"30138873334387118954755039585204388732866272135622030996476255424630672316865349999114792934071903736508725998179112824550135290997378758151410250352341656330322772641534760418458809673230258975332764053664958477766020795422424992894301951711378020728402792524479653251949853317809318484539184741057975180651874633716501578869281554574002992325149535767191371862562846183579283286674241838354429335906824440870083429162044606007072987221510583518649231291840109023171903744240844327398724426885275679416573891931542687850641113720602873334262082238732097810063715676022023771419978697692331360045516665079253255249531"},{"n":"23473393370085476595861095346748774887630760195002715122862858363706842155119889810464513224717355554760308754899814135946372542426223376650268153608193286917177002559327187669996305421145955430253475928534348608759307298789654079165905402459759161903582577771928044228939170503061649158015974898140164031644462684405367684443406082293427878829099670406417046973043609162452857894050890836127817161214770222869658832239725916974838073526503714564807601983136099348335493678678160564409868602353477598524877399585585485999080473431692390703472427097506418634121163684951832091605874759644387059373992495921634879492219"},{"n":"12155852436809696805078203204415189681435578078391722867935032215955864901582962714329148060959630388883295001487253528760624395838661673083566160019964581534100299266548674926971686692809217378206950021077828900616805410881432388365547358765046142900941582904094554256632521357578063612974702768158589226099994721955264178546701634154711474292858129218808194479868399771652823013093613395588617166086092862417190203859475414650253512822960714673123883260401006832661043391004258986758434131610379469569975202243737972104494837294368526083098201661723209674592705870599467821271124158033018918409972593022052378028009"}],{"curve":"secp256k1","point":[3,0,127,54,153,244,219,61,161,81,214,28,48,56,171,142,119,20,104,251,248,73,25,43,80,38,53,45,128,143,105,79,145]},[99,231,68,198,84,42,55,52,6,186,43,26,182,141,57,119,232,71,195,136,110,136,213,94,237,91,244,194,5,166,167,61]]"#;

const LEGACY_BAD_PRIME: &str = r#"[{"u_i":{"curve":"secp256k1","scalar":[159,28,160,25,241,160,134,212,88,52,197,59,31,141,193,140,175,223,198,156,105,183,228,170,56,191,101,32,228,155,201,100]},"y_i":{"curve":"secp256k1","point":[3,188,221,191,232,31,192,249,251,79,24,214,173,158,58,130,173,195,85,221,39,89,55,53,31,236,229,23,4,134,241,248,64]},"dk":{"p":"abc","q":"162423912167466020637558236047946719448051566011026688962372788864221326298622626910947393262518272043701031067462156244650501577003176709927712757865230713994200543577363898570480413297682005303865311095282095357629712562948842578801623086822248888681048423761728926684290770242458762429284494534875862187177"},"ek":{"n":"23473393370085476595861095346748774887630760195002715122862858363706842155119889810464513224717355554760308754899814135946372542426223376650268153608193286917177002559327187669996305421145955430253475928534348608759307298789654079165905402459759161903582577771928044228939170503061649158015974898140164031644462684405367684443406082293427878829099670406417046973043609162452857894050890836127817161214770222869658832239725916974838073526503714564807601983136099348335493678678160564409868602353477598524877399585585485999080473431692390703472427097506418634121163684951832091605874759644387059373992495921634879492219"},"party_index":2},{"y":{"curve":"secp256k1","point":[3,0,127,54,153,244,219,61,161,81,214,28,48,56,171,142,119,20,104,251,248,73,25,43,80,38,53,45,128,143,105,79,145]},"x_i":{"curve":"secp256k1","scalar":[171,164,33,186,86,196,250,230,141,199,213,197,21,157,147,219,52,82,118,245,241,93,43,31,199,241,45,54,56,206,70,82]}},2,[{"parameters":{"threshold":1,"share_count":3},"commitments":[{"curve":"secp256k1","point":[3,167,56,101,31,186,186,107,181,2,36,37,236,37,234,156,92,47,128,13,176,183,34,88,37,220,209,238,176,232,224,73,25]},{"curve":"secp256k1","point":[3,73,207,56,31,243,94,160,194,40,206,62,141,213,42,241,124,101,243,85,199,221,232,12,213,77,30,235,165,141,44,8,20]}]},{"parameters":{"threshold":1,"share_count":3},"commitments":[{"curve":"secp256k1","point":[3,188,221,191,232,31,192,249,251,79,24,214,173,158,58,130,173,195,85,221,39,89,55,53,31,236,229,23,4,134,241,248,64]},{"curve":"secp256k1","point":[2,64,134,225,249,35,226,250,180,62,21,166,175,25,62,169,31,254,85,32,233,54,90,55,29,176,188,35,33,17,218,108,124]}]},{"parameters":{"threshold":1,"share_count":3},"commitments":[{"curve":"secp256k1","point":[3,104,152,109,172,80,181,128,183,187,230,150,139,93,18,217,190,234,35,240,30,179,74,147,18,163,194,199,154,245,239,137,141]},{"curve":"secp256k1","point":[2,171,18,187,36,7,249,2,154,28,213,78,24,23,232,64,104,156,212,126,49,214,41,1,134,120,77,221,178,109,71,220,34]}]}],[{"n":"30138873334387118954755039585204388732866272135622030996476255424630672316865349999114792934071903736508725998179112824550135290997378758151410250352341656330322772641534760418458809673230258975332764053664958477766020795422424992894301951711378020728402792524479653251949853317809318484539184741057975180651874633716501578869281554574002992325149535767191371862562846183579283286674241838354429335906824440870083429162044606007072987221510583518649231291840109023171903744240844327398724426885275679416573891931542687850641113720602873334262082238732097810063715676022023771419978697692331360045516665079253255249531"},{"n":"23473393370085476595861095346748774887630760195002715122862858363706842155119889810464513224717355554760308754899814135946372542426223376650268153608193286917177002559327187669996305421145955430253475928534348608759307298789654079165905402459759161903582577771928044228939170503061649158015974898140164031644462684405367684443406082293427878829099670406417046973043609162452857894050890836127817161214770222869658832239725916974838073526503714564807601983136099348335493678678160564409868602353477598524877399585585485999080473431692390703472427097506418634121163684951832091605874759644387059373992495921634879492219"},{"n":"12155852436809696805078203204415189681435578078391722867935032215955864901582962714329148060959630388883295001487253528760624395838661673083566160019964581534100299266548674926971686692809217378206950021077828900616805410881432388365547358765046142900941582904094554256632521357578063612974702768158589226099994721955264178546701634154711474292858129218808194479868399771652823013093613395588617166086092862417190203859475414650253512822960714673123883260401006832661043391004258986758434131610379469569975202243737972104494837294368526083098201661723209674592705870599467821271124158033018918409972593022052378028009"}],{"curve":"secp256k1","point":[3,0,127,54,153,244,219,61,161,81,214,28,48,56,171,142,119,20,104,251,248,73,25,43,80,38,53,45,128,143,105,79,145]},[99,231,68,198,84,42,55,52,6,186,43,26,182,141,57,119,232,71,195,136,110,136,213,94,237,91,244,194,5,166,167,61]]"#;

const LEGACY_TRUNCATED_POINT: &str = r#"[{"u_i":{"curve":"secp256k1","scalar":[159,28,160,25,241,160,134,212,88,52,197,59,31,141,193,140,175,223,198,156,105,183,228,170,56,191,101,32,228,155,201,100]},"y_i":{"curve":"secp256k1","point":[3,188,221,191,232,31,192,249,251,79,24,214,173,158,58,130,173,195,85,221,39,89,55,53,31,236,229,23,4,134,241,248,64]},"dk":{"p":"144519320196421578229942353187397320789835487363686004656511762763016459887724566682104366580187692454533533052522180526436396260744826145216715433848635129390376697628687070245511313951815666449855952058327501991387920847139245959252127744098357868091625838637412515293041530446447123232557908781716027823747","q":"162423912167466020637558236047946719448051566011026688962372788864221326298622626910947393262518272043701031067462156244650501577003176709927712757865230713994200543577363898570480413297682005303865311095282095357629712562948842578801623086822248888681048423761728926684290770242458762429284494534875862187177"},"ek":{"n":"23473393370085476595861095346748774887630760195002715122862858363706842155119889810464513224717355554760308754899814135946372542426223376650268153608193286917177002559327187669996305421145955430253475928534348608759307298789654079165905402459759161903582577771928044228939170503061649158015974898140164031644462684405367684443406082293427878829099670406417046973043609162452857894050890836127817161214770222869658832239725916974838073526503714564807601983136099348335493678678160564409868602353477598524877399585585485999080473431692390703472427097506418634121163684951832091605874759644387059373992495921634879492219"},"party_index":2},{"y":{"curve":"secp256k1","point":[3,0,127,54,153,244,219,61,161,81,214,28,48,56,171,142,119,20,104,251,248,73,25,43,80,38,53,45,128,143,105,79,145]},"x_i":{"curve":"secp256k1","scalar":[171,164,33,186,86,196,250,230,141,199,213,197,21,157,147,219,52,82,118,245,241,93,43,31,199,241,45,54,56,206,70,82]}},2,[{"parameters":{"threshold":1,"share_count":3},"commitments":[{"curve":"secp256k1","point":[3,167,56,101,31,186,186,107,181,2,36,37,236,37,234,156,92,47,128,13,176,183,34,88,37,220,209,238,176,232,224,73,25]},{"curve":"secp256k1","point":[3,73,207,56,31,243,94,160,194,40,206,62,141,213,42,241,124,101,243,85,199,221,232,12,213,77,30,235,165,141,44,8,20]}]},{"parameters":{"threshold":1,"share_count":3},"commitments":[{"curve":"secp256k1","point":[3,188,221,191,232,31,192,249,251,79,24,214,173,158,58,130,173,195,85,221,39,89,55,53,31,236,229,23,4,134,241,248]},{"curve":"secp256k1","point":[2,64,134,225,249,35,226,250,180,62,21,166,175,25,62,169,31,254,85,32,233,54,90,55,29,176,188,35,33,17,218,108,124]}]},{"parameters":{"threshold":1,"share_count":3},"commitments":[{"curve":"secp256k1","point":[3,104,152,109,172,80,181,128,183,187,230,150,139,93,18,217,190,234,35,240,30,179,74,147,18,163,194,199,154,245,239,137,141]},{"curve":"secp256k1","point":[2,171,18,187,36,7,249,2,154,28,213,78,24,23,232,64,104,156,212,126,49,214,41,1,134,120,77,221,178,109,71,220,34]}]}],[{"n":"30138873334387118954755039585204388732866272135622030996476255424630672316865349999114792934071903736508725998179112824550135290997378758151410250352341656330322772641534760418458809673230258975332764053664958477766020795422424992894301951711378020728402792524479653251949853317809318484539184741057975180651874633716501578869281554574002992325149535767191371862562846183579283286674241838354429335906824440870083429162044606007072987221510583518649231291840109023171903744240844327398724426885275679416573891931542687850641113720602873334262082238732097810063715676022023771419978697692331360045516665079253255249531"},{"n":"23473393370085476595861095346748774887630760195002715122862858363706842155119889810464513224717355554760308754899814135946372542426223376650268153608193286917177002559327187669996305421145955430253475928534348608759307298789654079165905402459759161903582577771928044228939170503061649158015974898140164031644462684405367684443406082293427878829099670406417046973043609162452857894050890836127817161214770222869658832239725916974838073526503714564807601983136099348335493678678160564409868602353477598524877399585585485999080473431692390703472427097506418634121163684951832091605874759644387059373992495921634879492219"},{"n":"12155852436809696805078203204415189681435578078391722867935032215955864901582962714329148060959630388883295001487253528760624395838661673083566160019964581534100299266548674926971686692809217378206950021077828900616805410881432388365547358765046142900941582904094554256632521357578063612974702768158589226099994721955264178546701634154711474292858129218808194479868399771652823013093613395588617166086092862417190203859475414650253512822960714673123883260401006832661043391004258986758434131610379469569975202243737972104494837294368526083098201661723209674592705870599467821271124158033018918409972593022052378028009"}],{"curve":"secp256k1","point":[3,0,127,54,153,244,219,61,161,81,214,28,48,56,171,142,119,20,104,251,248,73,25,43,80,38,53,45,128,143,105,79,145]},[99,231,68,198,84,42,55,52,6,186,43,26,182,141,57,119,232,71,195,136,110,136,213,94,237,91,244,194,5,166,167,61]]"#;

const LEGACY_RAGGED_TABLE: &str = r#"[{"u_i":{"curve":"secp256k1","scalar":[159,28,160,25,241,160,134,212,88,52,197,59,31,141,193,140,175,223,198,156,105,183,228,170,56,191,101,32,228,155,201,100]},"y_i":{"curve":"secp256k1","point":[3,188,221,191,232,31,192,249,251,79,24,214,173,158,58,130,173,195,85,221,39,89,55,53,31,236,229,23,4,134,241,248,64]},"dk":{"p":"144519320196421578229942353187397320789835487363686004656511762763016459887724566682104366580187692454533533052522180526436396260744826145216715433848635129390376697628687070245511313951815666449855952058327501991387920847139245959252127744098357868091625838637412515293041530446447123232557908781716027823747","q":"162423912167466020637558236047946719448051566011026688962372788864221326298622626910947393262518272043701031067462156244650501577003176709927712757865230713994200543577363898570480413297682005303865311095282095357629712562948842578801623086822248888681048423761728926684290770242458762429284494534875862187177"},"ek":{"n":"23473393370085476595861095346748774887630760195002715122862858363706842155119889810464513224717355554760308754899814135946372542426223376650268153608193286917177002559327187669996305421145955430253475928534348608759307298789654079165905402459759161903582577771928044228939170503061649158015974898140164031644462684405367684443406082293427878829099670406417046973043609162452857894050890836127817161214770222869658832239725916974838073526503714564807601983136099348335493678678160564409868602353477598524877399585585485999080473431692390703472427097506418634121163684951832091605874759644387059373992495921634879492219"},"party_index":2},{"y":{"curve":"secp256k1","point":[3,0,127,54,153,244,219,61,161,81,214,28,48,56,171,142,119,20,104,251,248,73,25,43,80,38,53,45,128,143,105,79,145]},"x_i":{"curve":"secp256k1","scalar":[171,164,33,186,86,196,250,230,141,199,213,197,21,157,147,219,52,82,118,245,241,93,43,31,199,241,45,54,56,206,70,82]}},2,[{"parameters":{"threshold":1,"share_count":3},"commitments":[{"curve":"secp256k1","point":[3,167,56,101,31,186,186,107,181,2,36,37,236,37,234,156,92,47,128,13,176,183,34,88,37,220,209,238,176,232,224,73,25]},{"curve":"secp256k1","point":[3,73,207,56,31,243,94,160,194,40,206,62,141,213,42,241,124,101,243,85,199,221,232,12,213,77,30,235,165,141,44,8,20]}]},{"parameters":{"threshold":1,"share_count":3},"commitments":[{"curve":"secp256k1","point":[3,188,221,191,232,31,192,249,251,79,24,214,173,158,58,130,173,195,85,221,39,89,55,53,31,236,229,23,4,134,241,248,64]}]},{"parameters":{"threshold":1,"share_count":3},"commitments":[{"curve":"secp256k1","point":[3,104,152,109,172,80,181,128,183,187,230,150,139,93,18,217,190,234,35,240,30,179,74,147,18,163,194,199,154,245,239,137,141]},{"curve":"secp256k1","point":[2,171,18,187,36,7,249,2,154,28,213,78,24,23,232,64,104,156,212,126,49,214,41,1,134,120,77,221,178,109,71,220,34]}]}],[{"n":"30138873334387118954755039585204388732866272135622030996476255424630672316865349999114792934071903736508725998179112824550135290997378758151410250352341656330322772641534760418458809673230258975332764053664958477766020795422424992894301951711378020728402792524479653251949853317809318484539184741057975180651874633716501578869281554574002992325149535767191371862562846183579283286674241838354429335906824440870083429162044606007072987221510583518649231291840109023171903744240844327398724426885275679416573891931542687850641113720602873334262082238732097810063715676022023771419978697692331360045516665079253255249531"},{"n":"23473393370085476595861095346748774887630760195002715122862858363706842155119889810464513224717355554760308754899814135946372542426223376650268153608193286917177002559327187669996305421145955430253475928534348608759307298789654079165905402459759161903582577771928044228939170503061649158015974898140164031644462684405367684443406082293427878829099670406417046973043609162452857894050890836127817161214770222869658832239725916974838073526503714564807601983136099348335493678678160564409868602353477598524877399585585485999080473431692390703472427097506418634121163684951832091605874759644387059373992495921634879492219"},{"n":"12155852436809696805078203204415189681435578078391722867935032215955864901582962714329148060959630388883295001487253528760624395838661673083566160019964581534100299266548674926971686692809217378206950021077828900616805410881432388365547358765046142900941582904094554256632521357578063612974702768158589226099994721955264178546701634154711474292858129218808194479868399771652823013093613395588617166086092862417190203859475414650253512822960714673123883260401006832661043391004258986758434131610379469569975202243737972104494837294368526083098201661723209674592705870599467821271124158033018918409972593022052378028009"}],{"curve":"secp256k1","point":[3,0,127,54,153,244,219,61,161,81,214,28,48,56,171,142,119,20,104,251,248,73,25,43,80,38,53,45,128,143,105,79,145]},[99,231,68,198,84,42,55,52,6,186,43,26,182,141,57,119,232,71,195,136,110,136,213,94,237,91,244,194,5,166,167,61]]"#;

const LEGACY_BAD_INDEX: &str = r#"[{"u_i":{"curve":"secp256k1","scalar":[159,28,160,25,241,160,134,212,88,52,197,59,31,141,193,140,175,223,198,156,105,183,228,170,56,191,101,32,228,155,201,100]},"y_i":{"curve":"secp256k1","point":[3,188,221,191,232,31,192,249,251,79,24,214,173,158,58,130,173,195,85,221,39,89,55,53,31,236,229,23,4,134,241,248,64]},"dk":{"p":"144519320196421578229942353187397320789835487363686004656511762763016459887724566682104366580187692454533533052522180526436396260744826145216715433848635129390376697628687070245511313951815666449855952058327501991387920847139245959252127744098357868091625838637412515293041530446447123232557908781716027823747","q":"162423912167466020637558236047946719448051566011026688962372788864221326298622626910947393262518272043701031067462156244650501577003176709927712757865230713994200543577363898570480413297682005303865311095282095357629712562948842578801623086822248888681048423761728926684290770242458762429284494534875862187177"},"ek":{"n":"23473393370085476595861095346748774887630760195002715122862858363706842155119889810464513224717355554760308754899814135946372542426223376650268153608193286917177002559327187669996305421145955430253475928534348608759307298789654079165905402459759161903582577771928044228939170503061649158015974898140164031644462684405367684443406082293427878829099670406417046973043609162452857894050890836127817161214770222869658832239725916974838073526503714564807601983136099348335493678678160564409868602353477598524877399585585485999080473431692390703472427097506418634121163684951832091605874759644387059373992495921634879492219"},"party_index":2},{"y":{"curve":"secp256k1","point":[3,0,127,54,153,244,219,61,161,81,214,28,48,56,171,142,119,20,104,251,248,73,25,43,80,38,53,45,128,143,105,79,145]},"x_i":{"curve":"secp256k1","scalar":[171,164,33,186,86,196,250,230,141,199,213,197,21,157,147,219,52,82,118,245,241,93,43,31,199,241,45,54,56,206,70,82]}},9,[{"parameters":{"threshold":1,"share_count":3},"commitments":[{"curve":"secp256k1","point":[3,167,56,101,31,186,186,107,181,2,36,37,236,37,234,156,92,47,128,13,176,183,34,88,37,220,209,238,176,232,224,73,25]},{"curve":"secp256k1","point":[3,73,207,56,31,243,94,160,194,40,206,62,141,213,42,241,124,101,243,85,199,221,232,12,213,77,30,235,165,141,44,8,20]}]},{"parameters":{"threshold":1,"share_count":3},"commitments":[{"curve":"secp256k1","point":[3,188,221,191,232,31,192,249,251,79,24,214,173,158,58,130,173,195,85,221,39,89,55,53,31,236,229,23,4,134,241,248,64]},{"curve":"secp256k1","point":[2,64,134,225,249,35,226,250,180,62,21,166,175,25,62,169,31,254,85,32,233,54,90,55,29,176,188,35,33,17,218,108,124]}]},{"parameters":{"threshold":1,"share_count":3},"commitments":[{"curve":"secp256k1","point":[3,104,152,109,172,80,181,128,183,187,230,150,139,93,18,217,190,234,35,240,30,179,74,147,18,163,194,199,154,245,239,137,141]},{"curve":"secp256k1","point":[2,171,18,187,36,7,249,2,154,28,213,78,24,23,232,64,104,156,212,126,49,214,41,1,134,120,77,221,178,109,71,220,34]}]}],[{"n":"30138873334387118954755039585204388732866272135622030996476255424630672316865349999114792934071903736508725998179112824550135290997378758151410250352341656330322772641534760418458809673230258975332764053664958477766020795422424992894301951711378020728402792524479653251949853317809318484539184741057975180651874633716501578869281554574002992325149535767191371862562846183579283286674241838354429335906824440870083429162044606007072987221510583518649231291840109023171903744240844327398724426885275679416573891931542687850641113720602873334262082238732097810063715676022023771419978697692331360045516665079253255249531"},{"n":"23473393370085476595861095346748774887630760195002715122862858363706842155119889810464513224717355554760308754899814135946372542426223376650268153608193286917177002559327187669996305421145955430253475928534348608759307298789654079165905402459759161903582577771928044228939170503061649158015974898140164031644462684405367684443406082293427878829099670406417046973043609162452857894050890836127817161214770222869658832239725916974838073526503714564807601983136099348335493678678160564409868602353477598524877399585585485999080473431692390703472427097506418634121163684951832091605874759644387059373992495921634879492219"},{"n":"12155852436809696805078203204415189681435578078391722867935032215955864901582962714329148060959630388883295001487253528760624395838661673083566160019964581534100299266548674926971686692809217378206950021077828900616805410881432388365547358765046142900941582904094554256632521357578063612974702768158589226099994721955264178546701634154711474292858129218808194479868399771652823013093613395588617166086092862417190203859475414650253512822960714673123883260401006832661043391004258986758434131610379469569975202243737972104494837294368526083098201661723209674592705870599467821271124158033018918409972593022052378028009"}],{"curve":"secp256k1","point":[3,0,127,54,153,244,219,61,161,81,214,28,48,56,171,142,119,20,104,251,248,73,25,43,80,38,53,45,128,143,105,79,145]},[99,231,68,198,84,42,55,52,6,186,43,26,182,141,57,119,232,71,195,136,110,136,213,94,237,91,244,194,5,166,167,61]]"#;

const LEGACY_UNCLOSED: &str = r#"[{"u_i":{"curve":"secp256k1","scalar":[159,28,160,25,241,160,134,212,88,52,197,59,31,141,193,140,175,223,198,156,105,183,228,170,56,191,101,32,228,155,201,100]},"y_i":{"curve":"secp256k1","point":[3,188,221,191,232,31,192,249,251,79,24,214,173,158,58,130,173,195,85,221,39,89,55,53,31,236,229,23,4,134,241,248,64]},"dk":{"p":"144519320196421578229942353187397320789835487363686004656511762763016459887724566682104366580187692454533533052522180526436396260744826145216715433848635129390376697628687070245511313951815666449855952058327501991387920847139245959252127744098357868091625838637412515293041530446447123232557908781716027823747","q":"162423912167466020637558236047946719448051566011026688962372788864221326298622626910947393262518272043701031067462156244650501577003176709927712757865230713994200543577363898570480413297682005303865311095282095357629712562948842578801623086822248888681048423761728926684290770242458762429284494534875862187177"},"ek":{"n":"23473393370085476595861095346748774887630760195002715122862858363706842155119889810464513224717355554760308754899814135946372542426223376650268153608193286917177002559327187669996305421145955430253475928534348608759307298789654079165905402459759161903582577771928044228939170503061649158015974898140164031644462684405367684443406082293427878829099670406417046973043609162452857894050890836127817161214770222869658832239725916974838073526503714564807601983136099348335493678678160564409868602353477598524877399585585485999080473431692390703472427097506418634121163684951832091605874759644387059373992495921634879492219"},"party_index":2},{"y":{"curve":"secp256k1","point":[3,0,127,54,153,244,219,61,161,81,214,28,48,56,171,142,119,20,104,251,248,73,25,43,80,38,53,45,128,143,105,79,145]},"x_i":{"curve":"secp256k1","scalar":[171,164,33,186,86,196,250,230,141,199,213,197,21,157,147,219,52,82,118,245,241,93,43,31,199,241,45,54,56,206,70,82]}},2,[{"parameters":{"threshold":1,"share_count":3},"commitments":[{"curve":"secp256k1","point":[3,167,56,101,31,186,186,107,181,2,36,37,236,37,234,156,92,47,128,13,176,183,34,88,37,220,209,238,176,232,224,73,25]},{"curve":"secp256k1","point":[3,73,207,56,31,243,94,160,194,40,206,62,141,213,42,241,124,101,243,85,199,221,232,12,213,77,30,235,165,141,44,8,20]}]},{"parameters":{"threshold":1,"share_count":3},"commitments":[{"curve":"secp256k1","point":[3,188,221,191,232,31,192,249,251,79,24,214,173,158,58,130,173,195,85,221,39,89,55,53,31,236,229,23,4,134,241,248,64]},{"curve":"secp256k1","point":[2,64,134,225,249,35,226,250,180,62,21,166,175,25,62,169,31,254,85,32,233,54,90,55,29,176,188,35,33,17,218,108,124]}]},{"parameters":{"threshold":1,"share_count":3},"commitments":[{"curve":"secp256k1","point":[3,104,152,109,172,80,181,128,183,187,230,150,139,93,18,217,190,234,35,240,30,179,74,147,18,163,194,199,154,245,239,137,141]},{"curve":"secp256k1","point":[2,171,18,187,36,7,249,2,154,28,213,78,24,23,232,64,104,156,212,126,49,214,41,1,134,120,77,221,178,109,71,220,34]}]}],[{"n":"30138873334387118954755039585204388732866272135622030996476255424630672316865349999114792934071903736508725998179112824550135290997378758151410250352341656330322772641534760418458809673230258975332764053664958477766020795422424992894301951711378020728402792524479653251949853317809318484539184741057975180651874633716501578869281554574002992325149535767191371862562846183579283286674241838354429335906824440870083429162044606007072987221510583518649231291840109023171903744240844327398724426885275679416573891931542687850641113720602873334262082238732097810063715676022023771419978697692331360045516665079253255249531"},{"n":"23473393370085476595861095346748774887630760195002715122862858363706842155119889810464513224717355554760308754899814135946372542426223376650268153608193286917177002559327187669996305421145955430253475928534348608759307298789654079165905402459759161903582577771928044228939170503061649158015974898140164031644462684405367684443406082293427878829099670406417046973043609162452857894050890836127817161214770222869658832239725916974838073526503714564807601983136099348335493678678160564409868602353477598524877399585585485999080473431692390703472427097506418634121163684951832091605874759644387059373992495921634879492219"},{"n":"12155852436809696805078203204415189681435578078391722867935032215955864901582962714329148060959630388883295001487253528760624395838661673083566160019964581534100299266548674926971686692809217378206950021077828900616805410881432388365547358765046142900941582904094554256632521357578063612974702768158589226099994721955264178546701634154711474292858129218808194479868399771652823013093613395588617166086092862417190203859475414650253512822960714673123883260401006832661043391004258986758434131610379469569975202243737972104494837294368526083098201661723209674592705870599467821271124158033018918409972593022052378028009"}],{"curve":"secp256k1","point":[3,0,127,54,153,244,219,61,161,81,214,28,48,56,171,142,119,20,104,251,248,73,25,43,80,38,53,45,128,143,105,79,145]},[99,231,68,198,84,42,55,52,6,186,43,26,182,141,57,119,232,71,195,136,110,136,213,94,237,91,244,194,5,166,167,61]"#;

#[test]
fn legacy_migrates_to_keystore() {
    let ks = migrate_elgamal(&LEGACY.as_bytes().to_vec()).unwrap();
    assert_eq!(ks.party_index, 2);
    assert_eq!(ks.algorithm.curve, Curve::Secp256k1);
    assert_eq!(ks.algorithm.scheme, Scheme::ElGamal);
    // The stored scalars are already below the group order, so the
    // reduction leaves them unchanged.
    assert_eq!(ks.ui, vec![159u8, 28u8, 160u8, 25u8, 241u8, 160u8, 134u8, 212u8, 88u8, 52u8, 197u8, 59u8, 31u8, 141u8, 193u8, 140u8, 175u8, 223u8, 198u8, 156u8, 105u8, 183u8, 228u8, 170u8, 56u8, 191u8, 101u8, 32u8, 228u8, 155u8, 201u8, 100u8]);
    assert_eq!(ks.xi, vec![171u8, 164u8, 33u8, 186u8, 86u8, 196u8, 250u8, 230u8, 141u8, 199u8, 213u8, 197u8, 21u8, 157u8, 147u8, 219u8, 52u8, 82u8, 118u8, 245u8, 241u8, 93u8, 43u8, 31u8, 199u8, 241u8, 45u8, 54u8, 56u8, 206u8, 70u8, 82u8]);
    assert_eq!(ks.commitment_table.len(), 3);
    for row in ks.commitment_table.iter() {
        assert_eq!(row.len(), 2);
    }
    assert_eq!(ks.commitment_table[0][0], vec![3u8, 167u8, 56u8, 101u8, 31u8, 186u8, 186u8, 107u8, 181u8, 2u8, 36u8, 37u8, 236u8, 37u8, 234u8, 156u8, 92u8, 47u8, 128u8, 13u8, 176u8, 183u8, 34u8, 88u8, 37u8, 220u8, 209u8, 238u8, 176u8, 232u8, 224u8, 73u8, 25u8]);
    assert_eq!(ks.commitment_table[2][1], vec![2u8, 171u8, 18u8, 187u8, 36u8, 7u8, 249u8, 2u8, 154u8, 28u8, 213u8, 78u8, 24u8, 23u8, 232u8, 64u8, 104u8, 156u8, 212u8, 126u8, 49u8, 214u8, 41u8, 1u8, 134u8, 120u8, 77u8, 221u8, 178u8, 109u8, 71u8, 220u8, 34u8]);
    let pk = ks.paillier.as_ref().unwrap();
    assert_eq!(pk.p, b"144519320196421578229942353187397320789835487363686004656511762763016459887724566682104366580187692454533533052522180526436396260744826145216715433848635129390376697628687070245511313951815666449855952058327501991387920847139245959252127744098357868091625838637412515293041530446447123232557908781716027823747".to_vec());
    assert_eq!(pk.q, b"162423912167466020637558236047946719448051566011026688962372788864221326298622626910947393262518272043701031067462156244650501577003176709927712757865230713994200543577363898570480413297682005303865311095282095357629712562948842578801623086822248888681048423761728926684290770242458762429284494534875862187177".to_vec());
    assert_eq!(pk.n, b"23473393370085476595861095346748774887630760195002715122862858363706842155119889810464513224717355554760308754899814135946372542426223376650268153608193286917177002559327187669996305421145955430253475928534348608759307298789654079165905402459759161903582577771928044228939170503061649158015974898140164031644462684405367684443406082293427878829099670406417046973043609162452857894050890836127817161214770222869658832239725916974838073526503714564807601983136099348335493678678160564409868602353477598524877399585585485999080473431692390703472427097506418634121163684951832091605874759644387059373992495921634879492219".to_vec());
    // The precomputation cache is the square of the modulus, rebuilt at
    // import.
    assert_eq!(pk.nn, b"551000196306772808417159316155061088028031107130698043449917951049749360561243752407140535853939535942340696291164344798549812991027589692597755051846257691148713088898398494623690149188592254454321458484590511681386516520597699691908794559297602332385189010762610589436714913795213384356424107544144234369297337940061321692559067012842510831236732080036281847948019891484209050559235818681651177922133029202723026795545942556753694988703195962324435713586713307008722319384310080207532581601212768093971284374475202359963936407678136771418682622571071809807853398673664290660634593429307774474846880728848914177810546562697193092364859230071915589739222477581468098764592895201084880449087227753923825188605736842790510556127852466636894995016937002733826096067636385895894091367244862971961421674177054668793484710303457591530531032541363423119806853322477020408847049474379987420544656430395176996593797461568290361607541743338054255042424476171147179827392782258658957166934980893272674475733349074523502999136936527806001252032195700958610255595658103366266644813122635702222954259637828908324239863529489893571499645138648456343385935208717846077913781792055480661943476678135019206436433941756911557891484889447038255281543961".to_vec());
    assert_eq!(ks.peer_moduli.len(), 3);
    assert_eq!(ks.peer_moduli[0], b"30138873334387118954755039585204388732866272135622030996476255424630672316865349999114792934071903736508725998179112824550135290997378758151410250352341656330322772641534760418458809673230258975332764053664958477766020795422424992894301951711378020728402792524479653251949853317809318484539184741057975180651874633716501578869281554574002992325149535767191371862562846183579283286674241838354429335906824440870083429162044606007072987221510583518649231291840109023171903744240844327398724426885275679416573891931542687850641113720602873334262082238732097810063715676022023771419978697692331360045516665079253255249531".to_vec());
    assert_eq!(ks.peer_moduli[2], b"12155852436809696805078203204415189681435578078391722867935032215955864901582962714329148060959630388883295001487253528760624395838661673083566160019964581534100299266548674926971686692809217378206950021077828900616805410881432388365547358765046142900941582904094554256632521357578063612974702768158589226099994721955264178546701634154711474292858129218808194479868399771652823013093613395588617166086092862417190203859475414650253512822960714673123883260401006832661043391004258986758434131610379469569975202243737972104494837294368526083098201661723209674592705870599467821271124158033018918409972593022052378028009".to_vec());
}

#[test]
fn every_party_record_migrates() {
    // Threshold 1, three parties: every table holds three sequences of
    // two commitments, one per polynomial coefficient.
    let expected = [2u64, 1, 3];
    for (text, idx) in [LEGACY, LEGACY_SECOND, LEGACY_THIRD].iter().zip(expected) {
        let ks = migrate_elgamal(&text.as_bytes().to_vec()).unwrap();
        assert_eq!(ks.party_index, idx);
        assert_eq!(ks.commitment_table.len(), 3);
        for row in ks.commitment_table.iter() {
            assert_eq!(row.len(), 2);
        }
        assert_eq!(ks.peer_moduli.len(), 3);
    }
}

#[test]
fn convert_yields_the_keystore_record() {
    let ks = migrate_elgamal(&LEGACY.as_bytes().to_vec()).unwrap();
    let rec = encode_keystore(&ks).unwrap();
    assert_eq!(convert(LEGACY).unwrap(), rec);
    assert_eq!(
        convert(LEGACY_UNCLOSED).unwrap_err(),
        CoreError::MalformedLegacyRecord
    );
}

#[test]
fn migration_is_deterministic() {
    let a = migrate_elgamal(&LEGACY.as_bytes().to_vec()).unwrap();
    let b = migrate_elgamal(&LEGACY.as_bytes().to_vec()).unwrap();
    assert_eq!(a, b);
    let ea = encode_keystore(&a).unwrap();
    let eb = encode_keystore(&b).unwrap();
    assert_eq!(ea, eb);
}

#[test]
fn wide_scalar_is_reduced_modulo_order() {
    let ks = migrate_elgamal(&LEGACY_WIDE_SCALAR.as_bytes().to_vec()).unwrap();
    assert_eq!(ks.ui, vec![0u8, 0u8, 0u8, 0u8, 0u8, 0u8, 0u8, 0u8, 0u8, 0u8, 0u8, 0u8, 0u8, 0u8, 0u8, 1u8, 69u8, 81u8, 35u8, 25u8, 80u8, 183u8, 95u8, 196u8, 64u8, 45u8, 161u8, 115u8, 47u8, 201u8, 190u8, 190u8]);
}

#[test]
fn nonnumeric_prime_is_rejected() {
    let r = migrate_elgamal(&LEGACY_BAD_PRIME.as_bytes().to_vec());
    assert_eq!(r.unwrap_err(), CoreError::MalformedLegacyRecord);
}

#[test]
fn truncated_point_is_rejected() {
    let r = migrate_elgamal(&LEGACY_TRUNCATED_POINT.as_bytes().to_vec());
    assert_eq!(r.unwrap_err(), CoreError::NotOnCurve);
}

#[test]
fn ragged_table_is_rejected() {
    let r = migrate_elgamal(&LEGACY_RAGGED_TABLE.as_bytes().to_vec());
    assert_eq!(r.unwrap_err(), CoreError::MalformedLegacyRecord);
}

#[test]
fn out_of_roster_index_is_rejected() {
    let r = migrate_elgamal(&LEGACY_BAD_INDEX.as_bytes().to_vec());
    assert_eq!(r.unwrap_err(), CoreError::MalformedLegacyRecord);
}

#[test]
fn unclosed_record_is_rejected() {
    let r = migrate_elgamal(&LEGACY_UNCLOSED.as_bytes().to_vec());
    assert_eq!(r.unwrap_err(), CoreError::MalformedLegacyRecord);
}

#[test]
fn import_rejects_small_modulus() {
    let r = PaillierKey::import(b"4".to_vec(), b"6".to_vec());
    assert_eq!(r.unwrap_err(), CoreError::InvalidModulus);
}

#[test]
fn import_rejects_nondecimal_prime() {
    let r = PaillierKey::import(b"12x3".to_vec(), b"7".to_vec());
    assert_eq!(r.unwrap_err(), CoreError::InvalidModulus);
}
