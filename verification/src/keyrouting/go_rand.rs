//! Go's `math/rand` generator, so that an affinity plan visits nodes in the
//! same order as the Alternator clients in other languages.
//!
//! It is an additive lagged Fibonacci generator over 64-bit words, seeded
//! through a linear congruential generator and a fixed table.

use vstd::prelude::*;

verus! {

/// The number of words of state.
pub const RNG_LEN: usize = 607;

/// The distance from the tap to the feed.
pub const RNG_TAP: usize = 273;

/// The modulus of the seeding generator.
pub const SEED_MODULUS: u64 = 0x7fff_ffff;

/// The multiplier of the seeding generator.
pub const SEED_MULTIPLIER: u64 = 48271;

/// What a seed that is a multiple of the modulus is replaced by.
pub const ZERO_SEED: u64 = 89482311;

/// How many draws of one `intn` may be rejected before the last one is taken.
pub const MAX_REJECTED: u64 = 0xffff_ffff_ffff_ffff;

/// One draw in [0, 2^31) for every value below this number.
pub const INT31_END: u64 = 0x8000_0000;

/// The words that the seeded state is combined with.
pub const RNG_COOKED: [u64; 607] = [
    0xc5f74a33eb98ffea, 0xc07b4a41ba965f5b, 0x135ec513cb81af0f,
    0x4a04fb5ca74395eb, 0xa7e8831c7710cf8e, 0x7d5de4e88f37c1c3,
    0x6321cf7743ff85a9, 0x42cb06556a9ff961, 0x6e26c8d140e8d7d2,
    0x49a7511f3411faa0, 0x71ed774922a65055, 0x9d5c9fc65fea2d5c,
    0x3fbdab394a014368, 0x70fa33596992340b, 0xae10fb4ecea66a02,
    0xf79fbca98bbcd18a, 0x97f7ccb12ea380ac, 0x0191d794caf32b1b,
    0x3f6a323424e32caf, 0xc642cc921f01142b, 0xa122869f4ff38068,
    0xa5b1a31127af3920, 0x5b07a4f9bdc29d96, 0x6a2a973c29812586,
    0x6aa433dbf77a52e1, 0x8394216e3b8ac99e, 0xdb80a9c5515b997c,
    0x03c3f2eff3cbf769, 0xa6b5e431eeff210c, 0x0ec85334992953f5,
    0x2e6a1432df10d1e9, 0xbde4629959d1b149, 0x67994c3876387951,
    0x0e15d461559bae63, 0xbdbf96c4e9d2a077, 0xb04f62866ada20f3,
    0x2190da1646db97bf, 0x5071873c1832957a, 0x3e3b503a19da904b,
    0x33e388a5f2c78528, 0xbec70bac19d0e877, 0x00256970f81bf072,
    0xf7d18a14f64fa886, 0xa46ef978b4d4734c, 0x782ff1573127a78e,
    0x00241b0ad59beba6, 0xdac549591fe95b2f, 0x6195faf2884c2d39,
    0x569c2bbdb0ef345d, 0x0b8b6039508ce21e, 0xef1576705435d2bb,
    0x1d5e900af5f1d8f7, 0x1e902d187d7fd437, 0x7f227b7c8fe0eb79,
    0x38790e6201ebbb98, 0x44818eac7922e171, 0x0658d6c550dad340,
    0x84bfb894cc72969a, 0xa7855141e3b329bd, 0x9cb31556b1bae746,
    0x3ca09004f9686f49, 0x0c50146d7e508769, 0xcd35d8ff935ac970,
    0xde9818b4aa1554d8, 0x4df37efd6433daa0, 0xf591e9ad05b2e056,
    0x1767eb0bdbf83e29, 0xb8247292535299f2, 0xbae645975a5e4ceb,
    0xecea78155c3bc32b, 0x4e295e5357ace86e, 0x8b906a9a4fadbb08,
    0xfd50086af64463c9, 0xad0385acfd19d6fc, 0xbbe6d4a5e1d13a9f,
    0xfc099f33b79b039c, 0xd9782224840c5a35, 0x174e38bc45d51acf,
    0x53f82f9f54de4e3e, 0xe10dfa0a87b3ef0e, 0xea09d9ec7b439769,
    0x519ec3c7cc4c5011, 0x0b47990fc413e3d5, 0x3f07e07ecfce5be2,
    0xa5d2d0b8b71922be, 0x451eea1fc87cc761, 0xc8505edef7f1d6dd,
    0xfb6ed78e001ce905, 0xd7cc0a3644f468ba, 0x14c231db2e4429d0,
    0xe21ccd9a90943dd3, 0x664869f5288fc2d1, 0xddc56f604e168fb5,
    0x4151e4abb0b1faf6, 0xec9647e8cea7b927, 0x76a742187dbe61de,
    0x80778d4049780e3c, 0x92714446c26ce413, 0x65475bc019e7700b,
    0x0e08781d60d86d17, 0x9f0f0fe9d5f571e0, 0x476e62bf33886e57,
    0x8c710cff524eb4e6, 0x24e856a59e3899a5, 0x549f7c8b5783189a,
    0x9808539c06020014, 0xb8fc59eeb2515467, 0xf38fff8b8499a614,
    0xf5a62be73a3d5222, 0x508b82832b4c4838, 0xf5109fc7682ff8de,
    0xd31cadf15cc53f0c, 0xc1720509406b5826, 0xe900715210bc96fa,
    0x0704fe3536d393fb, 0xc65c9b6eccaefb4a, 0x8bafc73092be4019,
    0x07f0b599d77889ea, 0x18de0a49b8fa589b, 0x2f174e71c9830ff0,
    0xb470b780a26785dd, 0x20a6b76123b162be, 0x91efbd24cdc58322,
    0xfb7bb75026b32623, 0xd03d1caf9a1f04d0, 0xa5f0f909bcaee921,
    0x46aa7ced9d1c8e0b, 0xfcd8a79e7a62b6f9, 0x3ac4cf05bce83f14,
    0x45c579a008a037c4, 0x4053888e527912d0, 0xf88fa0b2289f7b17,
    0x51fbaf5d2002bdda, 0x8ae403a812ca4784, 0x0d7ea237329fa450,
    0xcb3f04bf02b6f208, 0xc796643e8a39ed33, 0xfd92d79ed75b6419,
    0x216821c8b258e8ac, 0xe93d3aff7b46e931, 0x36b0858cfcb72b6a,
    0xae5e3c9fe7ff1167, 0x2af4c395391cc2a5, 0xe6c4fd076feb7676,
    0x50efb5fb31ede773, 0x6d7f243359dbfcae, 0x7193e740340e0fdb,
    0x8ff51f73a4c6dd92, 0x94534b6efa1ca966, 0xc06a724520d70d41,
    0x30cd16bd19120592, 0x8d456b580c2cd6dc, 0x5c62bc0d6a8429ef,
    0x48744ea9b8e9395e, 0x18ef14825c84aee1, 0x4a1e32b73a71e234,
    0x0fee6f27c45228c0, 0x464e2e3be0d2e4a1, 0x23bb67f482e16008,
    0x0f11b541e8247327, 0xae7df90c7d2aafd7, 0x54e1f496142c391a,
    0x1d400ef625fa4274, 0x9906966610ce9e13, 0x22455934d7c1ccda,
    0xe6414239b7da9220, 0xb49f9091f6275556, 0x82916b3d64288abd,
    0x9f52d0a1c7066fa0, 0x642a666cfb8cf0a1, 0x8c9d981db063ad83,
    0x63dfa26158b67e4a, 0xce3cfe36ebecc2df, 0xb6e4eb2ba55364ff,
    0x6fd2179e0d7717d1, 0xb971a2b7362247db, 0xdbe5cf25d510c53b,
    0x930f28ad73735261, 0x5a95dd01047feb8b, 0x30adb1407358b45a,
    0x7fb44776784c1083, 0x1b20e8f4eb075406, 0xdc275f40b6c7c0d9,
    0x732df8dda67b0f27, 0xb62637afc484c885, 0x61c98649838bf631,
    0xdf061fee30277f58, 0x95d322052dac1455, 0x7ad30486e478aee9,
    0x3267221f4aced145, 0x479807052c3566b8, 0xa8025350a77ea0b9,
    0x421a7ec2fc169cd3, 0x57273ab05129a700, 0xbae4f7fb719f43f2,
    0x1c5bd857e8b8bf48, 0xdad594186971f359, 0x3f518aad9c427014,
    0x4c43c3b8cc8e8218, 0x981fba566f92dfb7, 0x07acaac55435c0ac,
    0x5fb0881038cbbc8f, 0xf243b5556cbeba73, 0x63149f303be79fd4,
    0xf6aade431f712475, 0x4cd2a557b6cbc24b, 0x21bc6975c169de72,
    0xcaf78cf40c768134, 0xf13cdd624a12159f, 0xd573d0041b390d3e,
    0x69ea8bd93bade806, 0x578baf3d78cd61f2, 0x3318a93a7f689dc9,
    0x2da7501cbdbe5235, 0x5b6d448c9bb11200, 0x036566ca66f231b4,
    0xb89e51e9e2b737e4, 0x704687541c9b68cf, 0x28df28a35d2937c9,
    0x8bfeb2756944b0b5, 0x29c24143c2234e9c, 0xf4fd794f8d02068f,
    0x0590f068df15e57d, 0xe4ad98adab8dc009, 0x4155b1828194a406,
    0xce463027d4ff743f, 0xd306231168ec0845, 0xae01984986c0c339,
    0xcc61983656980e5a, 0xb6b4b212af3d051a, 0x70aaf14a706ce17a,
    0x3547cbc995de3a40, 0x6202b8d9e9e8565f, 0x8a49ea181ddbac34,
    0x53a7bcb92853ce41, 0xa2aa132546a16f3a, 0xd6c166634bc92862,
    0x92ff6acebc93a071, 0x7a403280a96cea51, 0x5a183b8f81665a24,
    0x222b4c80d2c0e464, 0x859e3d4d58ba3aa6, 0xb9a28389cb2fe563,
    0x83a20cb89512fee4, 0xcbd691b061b30cbd, 0x8839baf8f3ac9f09,
    0x5ddf03b3edd1c4b8, 0xf62694c4cb82ed09, 0xd0c603b9879bd360,
    0x8558daf780426657, 0xc87fdb1b629e32ab, 0xd77938d516862fe1,
    0xe33a56962759ec00, 0x051bc82f174b90d9, 0xab3b5debcad25c86,
    0xa8766bd0dd9b35db, 0x425f26b683ca1487, 0x5d3c2b40a076f653,
    0x7464e98a72f8d634, 0x2f02dd3eea4e7841, 0x40977fe842527877,
    0xfbf01ad4922b1d62, 0xca959c2a8b4eea29, 0x69ca7ca110533802,
    0x6b36496357247bd9, 0x7f7c07645ca7b232, 0xb8c63fa50ae3677b,
    0xa0b7fd74703947d8, 0x231fb1a0dc8ce079, 0x16b63342b7c96e77,
    0xcd39a909d7e68027, 0x1427685b19caecdd, 0x9c9c6cd28e91b74d,
    0x91c1fb790e0d3a54, 0x7e67d3bdb81bb611, 0xd396fc0d89f6e211,
    0x457eacfbb049eb22, 0x1de1979bf5654dd5, 0x5d436ca7585d28ca,
    0xd3d7e2863218d979, 0x2fa7be3ccf9d1645, 0x1fb7a7e17b9eccb0,
    0x2b2b1fced929c282, 0xd85a90375e64310d, 0xcb336a1611227dbd,
    0x636925f5baf870cd, 0x43e0d0254b84715e, 0x080ec57577219247,
    0x175ee40f58fbd971, 0x3d78cc365badbce1, 0x8495a07683903295,
    0x8f89c0d3396a3b53, 0x639ba81c88d888a6, 0x3faf8d9c775ca781,
    0xeac40d3f519d2893, 0x01fe31d8c7df7dc4, 0x036d8003387dd6db,
    0x8c0621f768220a97, 0x59d6a8cc7a082707, 0x2aea572af8467560,
    0x1c910136c9fdf9c3, 0xc73eddfe111385e2, 0x79edb9a2a6a387df,
    0xd556d17adcc5f6fb, 0xf72709f96b28a3c7, 0x552d69f0428dce6a,
    0x9cbbb4be9a92c216, 0x4f37aef6caf41c5d, 0xd3431110cdd7a998,
    0x3c7c1de5b3cc1dca, 0x048311a7625eabd9, 0x5ee41cb40ca81e2c,
    0x43385b68e51dbffc, 0xd36a1f70d4f9a2ff, 0xcaeaccb927b0cb5c,
    0x3fddae4163e010e4, 0x0e7f5452a8c91ee0, 0x7e61315458970ccb,
    0x8b821c0b10054c75, 0xc444cf11f9840608, 0x2536b7a7602f6b4d,
    0x331786d5a126f97f, 0xc9a9cd708372db93, 0xd7e75a07542451da,
    0xa4e5a10d28659104, 0x9024ebcbf8b8e6af, 0x08137c3380f32523,
    0x32a31118a95e425f, 0xbd640b6140802b1e, 0x967e3cd0f12b1c5f,
    0x031089e87fbab9a7, 0xf11bfbb3ba3e0841, 0x3b7fc3ad0d1cd36b,
    0xbfb2f4d968b759c3, 0x4c8475564905d202, 0xe0a80b2a6236fa83,
    0x86a5b8671a833ae3, 0x79608828eb8fe58d, 0x032bcb9f5721e717,
    0x12d224e5dc7e16de, 0x29e68b8251e0d495, 0x2bc04a7508cb08a3,
    0x85f835a648329d25, 0x4d2799f797ec19a8, 0x443aadc076f2ed10,
    0x89357de277e46717, 0xaf7907aeb63c9d6c, 0x27ce6be004db5b35,
    0x9bbf0228d95bf1d8, 0xae31e17b25e1b363, 0x23e9429e957db925,
    0x950e5fab3c7e6825, 0x2aea3671bf9f5933, 0xb2d2ef433932102c,
    0x0d7ed21ec77fc8c1, 0xea5f1280f48e6247, 0x17b747cdf311ae42,
    0xe001060ea9fa838e, 0xaca7508c5bccfc84, 0xa3aaa0843f04f963,
    0xf949f7a4e8ebd3a5, 0x22876bdefd41df6c, 0xc124724f07e69e7c,
    0xbf470df23d5aa6b4, 0x2998352099f590b8, 0x11cc90f45895653d,
    0x03550da1ab28f8d1, 0x7842cc5c2b1b34db, 0x08b79b3694ac8400,
    0xbf72d50b84f96e2c, 0x947079f8eb08f590, 0x696cb72182050872,
    0xd4885bc9ac36d5a7, 0x6cb888b579fe97e1, 0x629482105204e4fd,
    0x3cef790816b93701, 0xbda77a26be136556, 0xfb8f861314dda828,
    0x08a2b7b803ae5bcf, 0xd3c8a91ed0323140, 0x870001a0b867ec3e,
    0xe4f6c1f9b093dde5, 0x8e086becbc0b8378, 0x9e755197c06ffcc7,
    0x246705ee34f204f8, 0xc7927582d516264c, 0xb3e17ba47546133c,
    0xa33f111b5caab4e2, 0xa23d8e161443255e, 0x48f128b344d0819c,
    0x6cd122fb39ab204d, 0x5c2910bf238f36aa, 0x90aeac10e05f9bba,
    0x9d54b6b00fe42aca, 0xe88f64387a0fcdcb, 0xc45a205f01473609,
    0xc768ed8eb6b8c82d, 0xf225920d43fd23ac, 0x25bdad5a8a817964,
    0x7ebc9cefb9015aab, 0x3c1ee78fa4ea733d, 0xe30e85d1757922a4,
    0x61123dc5e081fe21, 0xdc86c11079674e66, 0x8918973fb91ab9fb,
    0x00d4ee55ca6d8c2a, 0xd500476d5215b5b5, 0xfc5068b3e2ea6d2a,
    0x205da910dd23cb85, 0x979b5e11369f775b, 0x2bc872747d65ead7,
    0x96ba83aa2ac19de7, 0xa2258710d3a06bd5, 0x02bcfbd9169343e7,
    0x88eecd99246b6273, 0x234b301b2d3c0302, 0x3c61095d0931ecbf,
    0xc1fbeae253e44498, 0x9bf8d56e39d28810, 0xef025e3275852770,
    0x3b81d83bc6a5b26d, 0x740e3af17358a76b, 0x5a0491610c217837,
    0xb234c04ee9707bba, 0xe8d67481cf12c324, 0x3dc1a80712de14df,
    0x9646cd056265e405, 0xc9ed5b85fe5de223, 0xc034e6309514ca00,
    0xa55cb1a9ea35e9bd, 0x83585dac1418cf4c, 0xc6bfe6b67ae71dfa,
    0xedde6a8095841598, 0x8c478074a66108d3, 0x49f4fb28492601c4,
    0x6c1f1e9a65e7acb8, 0x44c3f220e0a3a35f, 0xc4422797ac160d7e,
    0xa9bed55a11ad2c15, 0x29bdbe2cde52ac8d, 0xa2486ed01638fb0c,
    0x7be91fdd8fa25058, 0x6d06c94a2118cf50, 0xbe19f2b9fcb649e5,
    0x6da310d0ddefe702, 0x9db4d6197fe76870, 0xa1a8e96dd484eb63,
    0xa2803dfd82f85916, 0x3a1a0a44d7644c46, 0x1a25188bb552aa62,
    0xfa3eab18c620bd11, 0x33d24f4edd10ea99, 0x386d39256536cc6c,
    0x607e759efb2ba1e8, 0x921ebb3d7c6c6071, 0x96ba6b088f86692f,
    0xb2bd2aeaeafed279, 0xb70cc2def3ab10ac, 0x2b1c1284b0b6db2b,
    0xd7d4c4db5bbdff92, 0x3f5b8190a0a0241e, 0x1b79f6457e60cfae,
    0xa05c318c94181e91, 0x3480a671b033e3d5, 0x7579955efbbaa755,
    0x2777c9f6d0c6b0d7, 0x2a0f21c2f6662c43, 0xc286b4bc45869bbc,
    0x3de266b1c86ed249, 0x0596478ee80942c5, 0x6fd3618b2ee6ae1b,
    0x3f08073a3e5dea77, 0x0e7847d01d6e71af, 0xcd1f81afc4fbaafe,
    0x24be71c60778c940, 0x1dc2b6df046a9621, 0xd0944e93950f6ccf,
    0xe2c767041ea34007, 0x521bf9c9206576c6, 0x866b7a2bd7715e51,
    0x7a97753c8c793641, 0x52daac19784a65e4, 0x07d3110b7c73f7eb,
    0xa66b273fbcc429b7, 0x16302dc85a75540a, 0xc840d3700a56e4de,
    0xd6875303fcd05bff, 0xabbeed06a5e32588, 0x758a6526f8636a3a,
    0x01be7adae8e62038, 0xc9b4bec75bc4f40a, 0xdc7a69ce0a9fc1c3,
    0xf93f853c0adbaa64, 0xbe48b8658e39d5b6, 0x5233cc88f307cb85,
    0x81f48c566746e404, 0xe6e72b2f3e111192, 0x6ee3ad5d7b4333d5,
    0x3bebf80abf44e35e, 0x324f3dfa2996372c, 0xa60900d584d3294f,
    0xcfb39707d3e017c8, 0xd33cd1090a56f237, 0xfae17ac7e5605d43,
    0xc8c0106f0ead4419, 0x89bba8037b2a60be, 0x6999983c12a6557d,
    0x29ecb289d4fc6351, 0xdc4e3ec308888d22, 0x2492188c7c1156a7,
    0x476502781cf85a10, 0x8e5d5db3b1c10b44, 0x15bff6623ba91eb7,
    0x716a28bba3f09c65, 0xd7f47607c92f30f1, 0x9e04907834879dad,
    0xa611c59795db7099, 0x9a74c74315758aa3, 0x536d4c40116f3239,
    0x52539ac587ad97d0, 0x1f1a1675f28959c3, 0x8c6d78f5619e8324,
    0x2af1cfe563eff7ad, 0x3f9d2212e5c94b1d, 0x7e023d467b37b61f,
    0xfaab76adabeee96b, 0xcff95dd9926b62d1, 0x3aa278a62172db76,
    0x9982abe519c8c867, 0x34c2118df1f5857e, 0xfa7376b640136c80,
    0x98a7d04ca29ade2f, 0x6d9f14b04d77e77e, 0x4b3dad048bed47a1,
    0x4c9ee5e4931d3231, 0xbaf4eba543f33d0a, 0x793aafa07373d926,
    0x986ea60fe6b39a32, 0xe31f344f666361e6, 0xf21cbedc44c049cb,
    0xc4f752a0eb5e5403, 0xaf1b99e27d410520, 0x592740a0e5b8c3dd,
    0x04fc4ea5fb446c97, 0xad6e587f47afe7a6, 0xde542c137b8384a4,
    0x2a0ffc0f7b301e5c, 0x820547300a5d8af4, 0xd3c639c2087dc079,
    0x0a467ca8709a2bb6, 0xe242bb6bb4da36de, 0x6079b0531ec90376,
    0x058ccf98dc1843f7, 0x8417b417b011aec1, 0xecdedd4ff0dd641b,
    0x8c3787282349e832, 0xd5f0bb8816e7e8fb, 0x85b650480fd8c2f4,
    0x7d45aa734f760b6d, 0x5962428553d20814, 0x400e2ba01968e7c4,
    0x077e19b9a3f76000, 0x1d17558f6164030c, 0x79753148c0e6c59f,
    0x9a77d2f2ef3bd843, 0x666eb88d8701e16f, 0x5572e7ce34288668,
    0xeb8d82b15491d607, 0x77c265a71aebbe54, 0x4947dddd6f3e9e07,
    0x628dfe635c795586, 0x22673e39d43ff99b, 0x637e086dc78cf522,
    0xee37e3669f7e9c66, 0x92d7bb47a4afe838, 0x1f9eabdfdbe2b7bd,
    0x324fca6af2b5c1d1, 0x59e4a152525b1b29, 0x7c91d10a8d75740e,
    0xcc7c533a7fca95d8, 0x1266fbf77386b1db, 0x689a66ba46d1c3bd,
    0x4bd671b124b5701a, 0x2c43fd0a9eaec04d, 0x58143117e4e16555,
    0x8358c5bb1248ac23, 0xaaf677bd80e30ac5, 0xfc997227a4f07f8f,
    0xa848cc5d9cb0e150, 0x640a711eb0e49b41, 0x64fcbfa01dca3978,
    0x980aab2fff6bc784, 0x395c6750aa42e65e, 0x287fea4c9695f3f4,
    0x9516361749f6428a, 0xc977d592999f2194, 0xc45166d9f6935ff8,
    0xa7f503a28f431ca9, 0x51d3a3c351be10ec, 0xf579e080162896e9,
    0xe5b5e9385b202824, 0xfbba1e4a59b0c60c, 0xa8de655829aab207,
    0xe1de048dc78b382e, 0x74535a96cc7adfd7, 0x7e57a19b735ef03b,
    0x39a00a3a31c025c6,
];

/// The state of the generator.
pub ghost struct RandState {
    pub vec: Seq<u64>,
    pub tap: nat,
    pub feed: nat,
}

/// The number that seeding starts from.
pub open spec fn seed_start(seed: i64) -> u64 {
    let x = seed as int % SEED_MODULUS as int;
    if x == 0 {
        ZERO_SEED
    } else {
        x as u64
    }
}

/// The `n`-th number of the seeding generator that starts from `x`.
pub open spec fn seed_step(x: u64, n: nat) -> u64
    decreases n,
{
    if n == 0 {
        x
    } else {
        (seed_step(x, (n - 1) as nat) as int * SEED_MULTIPLIER as int % SEED_MODULUS as int) as u64
    }
}

/// The `i`-th word of the seeded state: three numbers of the seeding
/// generator, of which the first twenty are skipped, and a word of the table.
pub open spec fn seeded_word(x: u64, i: nat) -> u64 {
    (seed_step(x, 3 * i + 21) << 40) ^ (seed_step(x, 3 * i + 22) << 20) ^ seed_step(x, 3 * i + 23)
        ^ RNG_COOKED[i as int]
}

/// The state after seeding.
pub open spec fn seeded(seed: i64) -> RandState {
    RandState {
        vec: Seq::new(RNG_LEN as nat, |i: int| seeded_word(seed_start(seed), i as nat)),
        tap: 0,
        feed: (RNG_LEN - RNG_TAP) as nat,
    }
}

/// The index before `i` in the circular state.
pub open spec fn before(i: nat) -> nat {
    if i == 0 {
        (RNG_LEN - 1) as nat
    } else {
        (i - 1) as nat
    }
}

/// The next 64-bit word drawn from `s`.
pub open spec fn word(s: RandState) -> u64 {
    s.vec[before(s.feed) as int].wrapping_add(s.vec[before(s.tap) as int])
}

/// The state after that draw.
pub open spec fn stepped(s: RandState) -> RandState {
    RandState {
        vec: s.vec.update(before(s.feed) as int, word(s)),
        tap: before(s.tap),
        feed: before(s.feed),
    }
}

/// The next 31-bit number drawn from `s`.
pub open spec fn int31(s: RandState) -> u64 {
    (word(s) & 0x7fff_ffff_ffff_ffff) >> 32
}

/// The largest draw that does not favour small numbers below `n`.
pub open spec fn last_fair(n: u64) -> int {
    INT31_END - 1 - INT31_END % n
}

/// The number below `n` drawn from `s`, and the state after it: draws above
/// the last fair one are rejected, at most `rejections` of them.
pub open spec fn drawn_below(s: RandState, n: u64, rejections: nat) -> (int, RandState)
    decreases rejections,
{
    if int31(s) <= last_fair(n) || rejections == 0 {
        (int31(s) as int % n as int, stepped(s))
    } else {
        drawn_below(stepped(s), n, (rejections - 1) as nat)
    }
}

proof fn lemma_int31_bound(w: u64)
    ensures
        (w & 0x7fff_ffff_ffff_ffff) >> 32 < 0x8000_0000,
{
    assert((w & 0x7fff_ffff_ffff_ffff) >> 32 < 0x8000_0000) by (bit_vector);
}

fn seed_next(x: u64) -> (r: u64)
    requires
        x < SEED_MODULUS,
    ensures
        r == x as int * SEED_MULTIPLIER as int % SEED_MODULUS as int,
        r < SEED_MODULUS,
{
    assert(x as int * SEED_MULTIPLIER as int <= 0x7fff_ffff * 48271) by (nonlinear_arith)
        requires
            x <= 0x7fff_ffff,
            SEED_MULTIPLIER == 48271,
    ;
    x * SEED_MULTIPLIER % SEED_MODULUS
}

/// Go's `*rand.Rand` over a seeded source.
#[derive(Debug)]
pub struct GoRand {
    vec: Vec<u64>,
    tap: usize,
    feed: usize,
}

impl GoRand {
    /// The state of this generator.
    pub closed spec fn view(&self) -> RandState {
        RandState { vec: self.vec@, tap: self.tap as nat, feed: self.feed as nat }
    }

    /// The state has all its words and both indices are within it.
    #[verifier::type_invariant]
    spec fn inv(&self) -> bool {
        self.vec.len() == RNG_LEN && self.tap < RNG_LEN && self.feed < RNG_LEN
    }

    /// A generator seeded with `seed`.
    pub fn new(seed: i64) -> (r: Self)
        ensures
            r@ == seeded(seed),
    {
        let reduced: i64 = seed % 0x7fff_ffff;
        let start: u64 = if reduced < 0 {
            (reduced + 0x7fff_ffff) as u64
        } else if reduced == 0 {
            ZERO_SEED
        } else {
            reduced as u64
        };
        assert(start == seed_start(seed));

        let mut x: u64 = start;
        let mut skipped: u64 = 0;
        while skipped < 20
            invariant
                skipped <= 20,
                x < SEED_MODULUS,
                x == seed_step(start, skipped as nat),
            decreases 20 - skipped,
        {
            x = seed_next(x);
            skipped = skipped + 1;
        }

        let mut vec: Vec<u64> = Vec::with_capacity(RNG_LEN);
        while vec.len() < RNG_LEN
            invariant
                vec.len() <= RNG_LEN,
                x < SEED_MODULUS,
                x == seed_step(start, (3 * vec.len() + 20) as nat),
                forall|i: int| 0 <= i < vec.len() ==> vec[i] == seeded_word(start, i as nat),
            decreases RNG_LEN - vec.len(),
        {
            let ghost i = vec.len() as nat;
            let a: u64 = seed_next(x);
            assert(a == seed_step(start, 3 * i + 21));
            let b: u64 = seed_next(a);
            assert(b == seed_step(start, 3 * i + 22));
            let c: u64 = seed_next(b);
            assert(c == seed_step(start, 3 * i + 23));
            let at: usize = vec.len();
            vec.push((a << 40) ^ (b << 20) ^ c ^ RNG_COOKED[at]);
            x = c;
        }
        let r = GoRand { vec, tap: 0, feed: RNG_LEN - RNG_TAP };
        proof {
            assert(r@.vec =~= seeded(seed).vec);
        }
        r
    }

    /// Draws a 31-bit number.
    fn next_int31(&mut self) -> (r: u64)
        ensures
            r == int31(old(self)@),
            r < INT31_END,
            final(self)@ == stepped(old(self)@),
    {
        proof {
            use_type_invariant(&*self);
        }
        let tap: usize = if self.tap == 0 {
            RNG_LEN - 1
        } else {
            self.tap - 1
        };
        let feed: usize = if self.feed == 0 {
            RNG_LEN - 1
        } else {
            self.feed - 1
        };
        let w: u64 = self.vec[feed].wrapping_add(self.vec[tap]);
        self.tap = tap;
        self.feed = feed;
        self.vec[feed] = w;
        proof {
            lemma_int31_bound(w);
        }
        (w & 0x7fff_ffff_ffff_ffff) >> 32
    }

    /// Draws a number in `0..n`.
    pub fn intn(&mut self, n: i32) -> (r: i32)
        requires
            n > 0,
        ensures
            (r as int, final(self)@) == drawn_below(old(self)@, n as u64, MAX_REJECTED as nat),
            0 <= r < n,
    {
        let bound: u64 = n as u64;
        let fair: u64 = INT31_END - 1 - INT31_END % bound;
        let mut left: u64 = MAX_REJECTED;
        let ghost mut drawn_from = self@;
        let mut v: u64 = self.next_int31();
        while v > fair && left > 0
            invariant
                bound == n as u64,
                n > 0,
                fair == last_fair(bound),
                v == int31(drawn_from),
                self@ == stepped(drawn_from),
                drawn_below(old(self)@, bound, MAX_REJECTED as nat) == drawn_below(
                    drawn_from,
                    bound,
                    left as nat,
                ),
            decreases left,
        {
            left = left - 1;
            proof {
                drawn_from = self@;
            }
            v = self.next_int31();
        }
        (v % bound) as i32
    }
}

/// The state after `k` draws.
pub open spec fn after_draws(s: RandState, k: nat) -> RandState
    decreases k,
{
    if k == 0 {
        s
    } else {
        stepped(after_draws(s, (k - 1) as nat))
    }
}

/// The state is one that draws lead to: it has all its words, and the two
/// indices are as far apart as they are at first.
pub open spec fn is_state(s: RandState) -> bool {
    &&& s.vec.len() == 607
    &&& s.tap < 607
    &&& s.feed == (if s.tap < 273 {
        s.tap as int + 334
    } else {
        s.tap as int + 334 - 607
    })
}

/// The index `k` places before `i` in the circular state.
spec fn places_before(i: nat, k: nat) -> nat {
    if k <= i {
        (i - k) as nat
    } else {
        (i + 607 - k) as nat
    }
}

/// The words at `i` after `k` draws from `s`: those that were drawn stand where
/// they were put, and the others stay.
spec fn holds_draws(s: RandState, k: nat) -> bool {
    let t = after_draws(s, k);
    &&& t.vec.len() == 607
    &&& t.feed == places_before(s.feed, k)
    &&& t.tap == places_before(s.tap, k)
    &&& forall|j: int|
        0 <= j < k ==> t.vec[#[trigger] before_or_same(s.feed, j)] == word(
            after_draws(s, j as nat),
        )
}

proof fn lemma_holds_draws(s: RandState, k: nat)
    requires
        is_state(s),
        k <= 607,
    ensures
        k < 607 ==> holds_draws(s, k),
        k == 607 ==> {
            let t = after_draws(s, 607);
            &&& t.vec.len() == 607
            &&& t.feed == s.feed
            &&& t.tap == s.tap
            &&& forall|j: int|
                0 <= j < 607 ==> t.vec[#[trigger] before_or_same(s.feed, j)] == word(
                    after_draws(s, j as nat),
                )
        },
    decreases k,
{
    if k > 0 {
        let m = (k - 1) as nat;
        lemma_holds_draws(s, m);
        let (u, t) = (after_draws(s, m), after_draws(s, k));
        assert(t == stepped(u));
        assert(before(u.feed) == before_or_same(s.feed, m as int));
        assert forall|j: int| 0 <= j < k implies t.vec[#[trigger] before_or_same(s.feed, j)] == word(
            after_draws(s, j as nat),
        ) by {
            if j < m {
                assert(before_or_same(s.feed, j) != before_or_same(s.feed, m as int));
                assert(u.vec[before_or_same(s.feed, j)] == word(after_draws(s, j as nat)));
            }
        }
    }
}

/// The index that the draw after `j` draws writes to.
spec fn before_or_same(feed: nat, j: int) -> int {
    if j + 1 <= feed {
        feed - (j + 1)
    } else {
        feed + 607 - (j + 1)
    }
}

/// The words that are drawn follow the generator's recurrence: each is the sum
/// of the one drawn 607 draws before it and the one drawn 273 draws before it.
pub proof fn law_draws_follow_the_recurrence(s: RandState)
    requires
        is_state(s),
    ensures
        word(after_draws(s, 607)) == word(s).wrapping_add(word(after_draws(s, 334))),
{
    lemma_holds_draws(s, 607);
    let t = after_draws(s, 607);
    assert(after_draws(s, 0) == s);
    assert(before(t.feed) == before_or_same(s.feed, 0));
    assert(t.vec[before_or_same(s.feed, 0)] == word(after_draws(s, 0 as nat)));
    assert(before(t.tap) == before_or_same(s.feed, 334));
    assert(t.vec[before_or_same(s.feed, 334)] == word(after_draws(s, 334 as nat)));
}

/// Every seed gives a state to draw from, and drawing keeps it one. Seeds that
/// are the same but for multiples of 2^31 - 1 give the same state.
pub proof fn law_seeding_gives_a_state(seed: i64, other: i64, s: RandState)
    ensures
        is_state(seeded(seed)),
        is_state(s) ==> is_state(stepped(s)),
        seed as int % 0x7fff_ffff == other as int % 0x7fff_ffff ==> seeded(seed) == seeded(other),
        seed as int % 0x7fff_ffff != 0 ==> seed_start(seed) == seed as int % 0x7fff_ffff,
{
    if seed as int % 0x7fff_ffff == other as int % 0x7fff_ffff {
        assert(seed_start(seed) == seed_start(other));
        assert(seeded(seed).vec =~= seeded(other).vec);
    }
}

/// Each word of the state is made of three numbers of the seeding generator,
/// shifted by 40, by 20 and by no bits, and of a word of the table. The first
/// twenty numbers are skipped, and each number is 48271 times the one before it,
/// modulo 2^31 - 1.
pub proof fn law_seeding_takes_three_numbers_a_word(seed: i64, i: int, n: nat)
    requires
        0 <= i < 607,
    ensures
        ({
            let x = seed_start(seed);
            let (a, b, c) = (
                seed_step(x, (3 * i + 21) as nat),
                seed_step(x, (3 * i + 22) as nat),
                seed_step(x, (3 * i + 23) as nat),
            );
            &&& seeded(seed).vec[i] == (a << 40) ^ (b << 20) ^ c ^ RNG_COOKED[i]
            &&& seed_step(x, n + 1) == seed_step(x, n) * 48271 % 0x7fff_ffff
            &&& seed_step(x, 0) == x
        }),
{
    let x = seed_start(seed);
    assert(seed_step(x, n) * 48271 % 0x7fff_ffff < 0x7fff_ffff) by {
        vstd::arithmetic::div_mod::lemma_mod_bound(seed_step(x, n) * 48271, 0x7fff_ffff);
    }
}

/// Draws below `n` are fair: the draws that count are as many as a multiple of
/// `n`, and others are drawn anew. What counts is the remainder.
pub proof fn law_draws_are_fair(s: RandState, n: u64, rejections: nat)
    requires
        0 < n <= 0x7fff_ffff,
        rejections > 0,
    ensures
        (last_fair(n) + 1) % n as int == 0,
        last_fair(n) + n as int > 0x7fff_ffff,
        int31(s) <= last_fair(n) ==> drawn_below(s, n, rejections) == (
            int31(s) as int % n as int,
            stepped(s),
        ),
        int31(s) > last_fair(n) ==> drawn_below(s, n, rejections) == drawn_below(
            stepped(s),
            n,
            (rejections - 1) as nat,
        ),
        int31(s) == (word(s) as int % 0x8000_0000_0000_0000) / 0x1_0000_0000,
{
    let end = 0x8000_0000int;
    let m = n as int;
    vstd::arithmetic::div_mod::lemma_fundamental_div_mod(end, m);
    vstd::arithmetic::div_mod::lemma_mod_multiples_vanish(end / m, 0, m);
    vstd::arithmetic::div_mod::lemma_small_mod(0, m as nat);
    let w = word(s);
    assert((w & 0x7fff_ffff_ffff_ffff) >> 32 == (w % 0x8000_0000_0000_0000) / 0x1_0000_0000)
        by (bit_vector);
}

} // verus!
