//! The prime of the STARK field, `2^251 + 17 * 2^192 + 1`, and its root of unity of order `2^192`.
//!
//! Squaring the root 191 times gives minus one. The remainders along the way are written out below,
//! so that each step is one multiplication. That the last one is minus one shows both that the root
//! has the order it should have and that the modulus is prime.

use vstd::prelude::*;
use vstd::arithmetic::div_mod::{lemma_mul_mod_noop, lemma_small_mod};
use vstd::arithmetic::power::{lemma_pow1, lemma_pow_adds, pow};
use vstd::arithmetic::power2::{lemma2_to64, lemma_pow2_adds, lemma_pow2_unfold, pow2};
use crate::modular::{is_prime, lemma_prime_by_square_roots};

verus! {

/// `2^251 + 17 * 2^192 + 1`
pub open spec fn prime() -> int {
    0x0800000000000011000000000000000000000000000000000000000000000001int
}

/// A root of unity of order `2^192` modulo the prime.
pub open spec fn root() -> int {
    0x005282db87529cfa3f0464519c8b0fa5ad187148e11a61616070024f42f8ef94int
}

/// `root^(2^k)` reduced.
pub open spec fn repeated_square(k: nat) -> int {
    pow(root(), pow2(k)) % prime()
}

/// Squaring takes one repeated square to the next.
proof fn lemma_next_square(k: nat, x: int, y: int)
    requires
        repeated_square(k) == x,
        (x * x) % prime() == y,
    ensures
        repeated_square(k + 1) == y,
{
    let power = pow(root(), pow2(k));
    lemma_pow2_unfold(k + 1);
    lemma_pow_adds(root(), pow2(k), pow2(k));
    lemma_mul_mod_noop(power, power, prime());
}

proof fn lemma_squares_to_16()
    requires
        repeated_square(0) == 0x005282db87529cfa3f0464519c8b0fa5ad187148e11a61616070024f42f8ef94int,
    ensures
        repeated_square(16) == 0x04b9cb49b478c12a88ed5b7b848605cfd0744ddc522944901181eb951524ad8cint,
{
    let x0: int = 0x005282db87529cfa3f0464519c8b0fa5ad187148e11a61616070024f42f8ef94int;
    let x1: int = 0x00e0a5eb0a4995b37e2ab5fe2fad6e9ce43272dfda828f000fc5b93404173760int;
    lemma_next_square(0, x0, x1);
    let x2: int = 0x05ac1ff12884c2d7f68488ddee5be5b657e36f459476eb5d567be37f09dc6b5cint;
    lemma_next_square(1, x1, x2);
    let x3: int = 0x0727b76a09563089053924d54bf6c31631c57cb6a2a1a8f22c8ed622c3bb6a8fint;
    lemma_next_square(2, x2, x3);
    let x4: int = 0x07709cc3f421a10d914017ea2f0c24719ca9d2692beb71a6e040769692f8ac25int;
    lemma_next_square(3, x3, x4);
    let x5: int = 0x0367f3841b487ae5108205191425ad9817e693462b58f45e767a1747b49b3a0aint;
    lemma_next_square(4, x4, x5);
    let x6: int = 0x061e359f379293ae0323845f87689930c777629391e2ede1d9446736bc46b8b4int;
    lemma_next_square(5, x5, x6);
    let x7: int = 0x0520c2d37e3f1e78c6185d3a0ab93ba14d44cff8db576ebc4b44764ed4ee8cf7int;
    lemma_next_square(6, x6, x7);
    let x8: int = 0x022f575e112a2c4d946813e30f331903ef2990c6729d40e2123e992e31d48a82int;
    lemma_next_square(7, x7, x8);
    let x9: int = 0x0230b5c3d3f093925027e7d944793049f381ebbdbf87d840e4fa93cb9302ac44int;
    lemma_next_square(8, x8, x9);
    let x10: int = 0x07586d27b19255098be0ca5f918f0105924e189c653705209465d77c65375f6cint;
    lemma_next_square(9, x9, x10);
    let x11: int = 0x021dab447c48649aabcf2825aabe912be6406a78823ddf07191a2ea9cf287fafint;
    lemma_next_square(10, x10, x11);
    let x12: int = 0x026064139b92e036e3f5c599bbc94c16778ba471a45d785f664252897cc1083dint;
    lemma_next_square(11, x11, x12);
    let x13: int = 0x031531c6965c0cc47bf5af5390db4c797463b3f37e80093aad6794f2b94bc10eint;
    lemma_next_square(12, x12, x13);
    let x14: int = 0x02bc8b3028ec2dda77d60416fa86658a1f3c8f9650425ae8bc5915ae98c8db7fint;
    lemma_next_square(13, x13, x14);
    let x15: int = 0x038e3b071e369b4f6fa736a5d498e3373efa8faeed5c136198cb241127105daeint;
    lemma_next_square(14, x14, x15);
    let x16: int = 0x04b9cb49b478c12a88ed5b7b848605cfd0744ddc522944901181eb951524ad8cint;
    lemma_next_square(15, x15, x16);
}

proof fn lemma_squares_to_32()
    requires
        repeated_square(16) == 0x04b9cb49b478c12a88ed5b7b848605cfd0744ddc522944901181eb951524ad8cint,
    ensures
        repeated_square(32) == 0x04f4fae1524c29441dbfd6794692f803ddcf6d66be90d67e9412a9f3df1d9004int,
{
    let x0: int = 0x04b9cb49b478c12a88ed5b7b848605cfd0744ddc522944901181eb951524ad8cint;
    let x1: int = 0x02708b052ff2ca5046d6fe3ce111d6ce5a337909375dc2407a5b3e7079bc6c86int;
    lemma_next_square(16, x0, x1);
    let x2: int = 0x068b3aaf00a4483b1a12a4257f01c5385127a167f0c137cd9513e0d4dd756b6dint;
    lemma_next_square(17, x1, x2);
    let x3: int = 0x0605f6a2ae0874e2c25b262fb99395f44234afd0c2069cba6c72bd401f4f0e85int;
    lemma_next_square(18, x2, x3);
    let x4: int = 0x03745ca5cc625a0b10b1b3db9be0aef564f4bbd26f29053dc04dc48c005a1d86int;
    lemma_next_square(19, x3, x4);
    let x5: int = 0x03ddeed6ea43d59b7de04ce2d8febe775be86512856a1aefe378a012135e0ee9int;
    lemma_next_square(20, x4, x5);
    let x6: int = 0x06a550dfc8c22dd8e5e4a16b727e74b5d94f928d5d407ae80fbfd336edeaec42int;
    lemma_next_square(21, x5, x6);
    let x7: int = 0x00d109f294d2adea8bd91c558d4220dbb658c8c4e26b66b3ded3bc578b98bf40int;
    lemma_next_square(22, x6, x7);
    let x8: int = 0x0247ecf52fe8be1fa8114ab3c94862af5a6b430dec205dcdbff2f4e60cc5cbf4int;
    lemma_next_square(23, x7, x8);
    let x9: int = 0x00e34b3355ee9d49575950f37d1e82a86401b6d3cd08787a3a66ad86f976eb41int;
    lemma_next_square(24, x8, x9);
    let x10: int = 0x05fb76bed5d75a88214d3134d01f3de968cd3f7a0173185873f8a435e404f6c5int;
    lemma_next_square(25, x9, x10);
    let x11: int = 0x0056db454a93340f5acba1990670f5d4e0f02915519dadcabbbafb3f6d8408a5int;
    lemma_next_square(26, x10, x11);
    let x12: int = 0x07ce12e47503ddc334ca7cb60795844b7ee777e1736a1659e70206135bd84f3eint;
    lemma_next_square(27, x11, x12);
    let x13: int = 0x00f4804c8e8b80825b24913bf17eb8d7b7cb0619f5952362ef7660f933f928b7int;
    lemma_next_square(28, x12, x13);
    let x14: int = 0x04e3bf4420275950191382578f8530f2352eab2a421182c9e382756459824907int;
    lemma_next_square(29, x13, x14);
    let x15: int = 0x0554f72a851739e0f74544f484883580f8a339cf887fd7e9d413afdf5707d134int;
    lemma_next_square(30, x14, x15);
    let x16: int = 0x04f4fae1524c29441dbfd6794692f803ddcf6d66be90d67e9412a9f3df1d9004int;
    lemma_next_square(31, x15, x16);
}

proof fn lemma_squares_to_48()
    requires
        repeated_square(32) == 0x04f4fae1524c29441dbfd6794692f803ddcf6d66be90d67e9412a9f3df1d9004int,
    ensures
        repeated_square(48) == 0x05cc1cc672a31ef19372af4e145cef8c5ee3ac6f3d52698169b8f4dfcbd4ba67int,
{
    let x0: int = 0x04f4fae1524c29441dbfd6794692f803ddcf6d66be90d67e9412a9f3df1d9004int;
    let x1: int = 0x07f5f8017989c8fdbb172d28ca71e55107dbe55709f8e2fcb653c919e49749c9int;
    lemma_next_square(32, x0, x1);
    let x2: int = 0x04100303baee9a5842724e80dc3ed49ec0b192bec08b1798d3bd98334c264e97int;
    lemma_next_square(33, x1, x2);
    let x3: int = 0x01df4a811feca6510bcf423c95272d01bafe9a1cf805fedfb085758e34fc5356int;
    lemma_next_square(34, x2, x3);
    let x4: int = 0x02f187e162cfacb26b399ae073edc56f2d84c4c208f1b99b30e067ccab76a462int;
    lemma_next_square(35, x3, x4);
    let x5: int = 0x01b3031446d8156a9ba50868dd68405541ff4e1eac57ece3f9c1e3a3da25c9fdint;
    lemma_next_square(36, x4, x5);
    let x6: int = 0x03e0ddb6a81dbffa20b04218bfadddd31edf6a8360cf9603fabab7b8e2ddaacdint;
    lemma_next_square(37, x5, x6);
    let x7: int = 0x022a91cea99c704d27da5fbfa2a910a814634b999fa37e684adb59475585a6f0int;
    lemma_next_square(38, x6, x7);
    let x8: int = 0x051dbe40b55b06ccba80ffda2ae70678be651dd1cf739179cfe50d9005903be3int;
    lemma_next_square(39, x7, x8);
    let x9: int = 0x0693e89afa69f0ec576adf96c3a87a889bd7746501d6ee0552d7a9a28866c747int;
    lemma_next_square(40, x8, x9);
    let x10: int = 0x00d514fc5fd97ea169c1bfcf8ec507265586addb293ad856c002185cc993b168int;
    lemma_next_square(41, x9, x10);
    let x11: int = 0x015c5f15022748d28af5a7b79bcbfb57f77e35ad33d0fa70e24b552892d52444int;
    lemma_next_square(42, x10, x11);
    let x12: int = 0x078679d63a3ecc280b51a085e58e209451f02e33e2e116095604b398a7dae551int;
    lemma_next_square(43, x11, x12);
    let x13: int = 0x053097d8687ba365b60c1f9388b6ecda283122287b18a9d00a1e223e324c6039int;
    lemma_next_square(44, x12, x13);
    let x14: int = 0x04ba49f25455acc3a7a2067eaf1bea485824a28560f8f9da8fa8385074d51c41int;
    lemma_next_square(45, x13, x14);
    let x15: int = 0x024cfa5880eb8d60c68233b14395b70d86ba0504ee3fa47ece898b0d62d1ba57int;
    lemma_next_square(46, x14, x15);
    let x16: int = 0x05cc1cc672a31ef19372af4e145cef8c5ee3ac6f3d52698169b8f4dfcbd4ba67int;
    lemma_next_square(47, x15, x16);
}

proof fn lemma_squares_to_64()
    requires
        repeated_square(48) == 0x05cc1cc672a31ef19372af4e145cef8c5ee3ac6f3d52698169b8f4dfcbd4ba67int,
    ensures
        repeated_square(64) == 0x0056c235baead3486249b2a4a489481f05ae32099ff8786899c46a0d82ccc89aint,
{
    let x0: int = 0x05cc1cc672a31ef19372af4e145cef8c5ee3ac6f3d52698169b8f4dfcbd4ba67int;
    let x1: int = 0x00f7af27641b3f3d746ded71bfb061d6b4cbecb77f25beea82a941c973a220ecint;
    lemma_next_square(48, x0, x1);
    let x2: int = 0x02b3732472327da653f3c5738dd76882e86db2fb81648127908e645057e7aeedint;
    lemma_next_square(49, x1, x2);
    let x3: int = 0x07b9da96c5a7950576f427264afab47a7f3e3f90a6b0481cdb259a579f47496fint;
    lemma_next_square(50, x2, x3);
    let x4: int = 0x0794ed388971b70e27a7ffeb9e9462dc616a47d66aa9c29a3ca61d9e046b49b2int;
    lemma_next_square(51, x3, x4);
    let x5: int = 0x06321b515f80f9920c911679ba6a027da5eb368f06fbef31d958e7261d4c3fecint;
    lemma_next_square(52, x4, x5);
    let x6: int = 0x07ea9749876bd8c7c89f660e303b1f5ab24b664abafa937b8e9a6336df253531int;
    lemma_next_square(53, x5, x6);
    let x7: int = 0x052eeb982865a07ef78f890e220db8d8ab92043c7e70f7de7a5bead4ecd4c6f7int;
    lemma_next_square(54, x6, x7);
    let x8: int = 0x06309a6bc57feea2d228b1f9373f622223097a65768e2cb37ffa095dceb3dffdint;
    lemma_next_square(55, x7, x8);
    let x9: int = 0x037c79f6a0992ed5836ffd8094db1b389feefa06d40b6d0f1f4047ca72a30547int;
    lemma_next_square(56, x8, x9);
    let x10: int = 0x033dee7825ee51ffced58dd1d596cd51b3a834559493a6280eff7e6aecfb6f72int;
    lemma_next_square(57, x9, x10);
    let x11: int = 0x03152c1d4c3842dd703949ee1d0db22695db523fcdecebc92a87c37ab9975332int;
    lemma_next_square(58, x10, x11);
    let x12: int = 0x00e1919f0c4bc4bebaa2335967f20d255a1787ba915c1c7047892f3b45aa1b58int;
    lemma_next_square(59, x11, x12);
    let x13: int = 0x041d6351df0a61c1e78d6c8d6510630c3e0f503757bbca048964ee489ff51bc7int;
    lemma_next_square(60, x12, x13);
    let x14: int = 0x00e94509d1e22f80dfaceff6d7264573386c232533eb6c0e164f0705acf14a4fint;
    lemma_next_square(61, x13, x14);
    let x15: int = 0x0397b942bc3442eb1c3223aa5a250a06518db5cdc03af9765a0640f3ba0ea95eint;
    lemma_next_square(62, x14, x15);
    let x16: int = 0x0056c235baead3486249b2a4a489481f05ae32099ff8786899c46a0d82ccc89aint;
    lemma_next_square(63, x15, x16);
}

proof fn lemma_squares_to_80()
    requires
        repeated_square(64) == 0x0056c235baead3486249b2a4a489481f05ae32099ff8786899c46a0d82ccc89aint,
    ensures
        repeated_square(80) == 0x042c8871ea85f2ecbcba6ac1bdb3834a4e2e298fa484586841d351cd9065f8eeint,
{
    let x0: int = 0x0056c235baead3486249b2a4a489481f05ae32099ff8786899c46a0d82ccc89aint;
    let x1: int = 0x05ac9917c7afafca64c137b0e338258ebff4af42aff370fd3b5a874072ef3623int;
    lemma_next_square(64, x0, x1);
    let x2: int = 0x058fb800a320eca270b7ee88d5142cff73b4f714487e93c98fd405b2c520e3eaint;
    lemma_next_square(65, x1, x2);
    let x3: int = 0x0367a3c7073c48b4893b09160b21ca7e6190d3f60fef654e07eda692e4b19319int;
    lemma_next_square(66, x2, x3);
    let x4: int = 0x00419cb7f7f7738114c64d050d7d21267f191fd60374be67a1da52b0aba4060aint;
    lemma_next_square(67, x3, x4);
    let x5: int = 0x063039de3f8123775b2fa771cfe9651528fd23fd2a9c6282270aa33a3b50645aint;
    lemma_next_square(68, x4, x5);
    let x6: int = 0x046de7bc8594b9246c646fe83be009f94ebe5506682ee17cba523265324228d8int;
    lemma_next_square(69, x5, x6);
    let x7: int = 0x002173582bc7171c7782f8b8e9f2008c937c1e6e10b6a1216c80848fd48e9b00int;
    lemma_next_square(70, x6, x7);
    let x8: int = 0x04b4757de1261bff7bd468872e4228034dcf39325d4233b0de558d1613ee028cint;
    lemma_next_square(71, x7, x8);
    let x9: int = 0x033b74dd5c6620aaf28c83c99c0eea09b1cab3419049fd2d9604491931d9587eint;
    lemma_next_square(72, x8, x9);
    let x10: int = 0x07986feaa4074faf4163a40136f0f7914c11ef2660e0b0c87b48a33beb0faad4int;
    lemma_next_square(73, x9, x10);
    let x11: int = 0x00886d2382e8fa75bbc12961947a00fdd7322ee9d24690f489b394f74decc603int;
    lemma_next_square(74, x10, x11);
    let x12: int = 0x016b03c927c81bdd10d4a8d04f0bb72739d57dd675cfaa7ee42676b09583f023int;
    lemma_next_square(75, x11, x12);
    let x13: int = 0x008cd288bed4677427e6570a0f7e3e6be380dee704eac3cfd35f3e32a95e3cbfint;
    lemma_next_square(76, x12, x13);
    let x14: int = 0x053b143cb298587d09716ad9d2c2590d2e4aea228cfd772f3a6299bd21bd655aint;
    lemma_next_square(77, x13, x14);
    let x15: int = 0x04d12da8f698dd8f2c55534386839de74f0f9dc426fc2d5cc4dc0d201fda880fint;
    lemma_next_square(78, x14, x15);
    let x16: int = 0x042c8871ea85f2ecbcba6ac1bdb3834a4e2e298fa484586841d351cd9065f8eeint;
    lemma_next_square(79, x15, x16);
}

proof fn lemma_squares_to_96()
    requires
        repeated_square(80) == 0x042c8871ea85f2ecbcba6ac1bdb3834a4e2e298fa484586841d351cd9065f8eeint,
    ensures
        repeated_square(96) == 0x019fa1f95266715130d97769c946ab30040470c480339f392810d2b47dac5d19int,
{
    let x0: int = 0x042c8871ea85f2ecbcba6ac1bdb3834a4e2e298fa484586841d351cd9065f8eeint;
    let x1: int = 0x04159becba288c0bef00dfa97c13e14560e6c3629ed293403cde2cdda828431eint;
    lemma_next_square(80, x0, x1);
    let x2: int = 0x00a8a188329f6855437c2fda73696a28da7456d290b17b01dcadfd2955205413int;
    lemma_next_square(81, x1, x2);
    let x3: int = 0x025a425bcac574963eb8c3a0e4df06d84a959d5003821aa870b8043288740c3eint;
    lemma_next_square(82, x2, x3);
    let x4: int = 0x074ffc4d220fc7db571dbdb926e5d4354cf688cf5ac103a0cbadd8ada5c0dca4int;
    lemma_next_square(83, x3, x4);
    let x5: int = 0x05d92ab7822107546e6eef0404badff62ca03fcb86946633c3eebe54443af109int;
    lemma_next_square(84, x4, x5);
    let x6: int = 0x050c8e5c3e50dfed7db961b024a4096ed5930255d99f7159962ceb6b1a264ab3int;
    lemma_next_square(85, x5, x6);
    let x7: int = 0x06bd0cde316cc0d39a112816deb0740d4f17674dc55f4455b2b074aeb3b67067int;
    lemma_next_square(86, x6, x7);
    let x8: int = 0x07913b17c60939127aa46ad086b82de771329f695f3fb72adb150649bea42f88int;
    lemma_next_square(87, x7, x8);
    let x9: int = 0x04bef156ed7788c133e089caa12773f25a2e6ea2c78f7dac1fbc42a3358cfcc2int;
    lemma_next_square(88, x8, x9);
    let x10: int = 0x010d235f41cf0a6b5d0e7af09fbda5e344370686cf0e1b883c3407a5b11706c9int;
    lemma_next_square(89, x9, x10);
    let x11: int = 0x00c962b1e5dd28e0e9aa6d504f6267c727cea5605ee6eb03af24ead266d7eb25int;
    lemma_next_square(90, x10, x11);
    let x12: int = 0x036026557e531b52198de3470c8661cb0c37dca27bbe087de1462ca639759f39int;
    lemma_next_square(91, x11, x12);
    let x13: int = 0x005f950ad12450edbc0746a1dcb004b32cdd8f78093a5a7ffebd2a8b6be27786int;
    lemma_next_square(92, x12, x13);
    let x14: int = 0x06680f09add19a7d439bdda4e080e2ec6831da1df132ce21a848b2f255e39071int;
    lemma_next_square(93, x13, x14);
    let x15: int = 0x04c3a3a1cf78c5796af2b76d08451e3595490ca02a0fb7bd00e13c8e5e7c57a2int;
    lemma_next_square(94, x14, x15);
    let x16: int = 0x019fa1f95266715130d97769c946ab30040470c480339f392810d2b47dac5d19int;
    lemma_next_square(95, x15, x16);
}

proof fn lemma_squares_to_112()
    requires
        repeated_square(96) == 0x019fa1f95266715130d97769c946ab30040470c480339f392810d2b47dac5d19int,
    ensures
        repeated_square(112) == 0x06263e1e108eec6a19935b68cc9d9b24d43bcf85471f947e12680395c2ba0f23int,
{
    let x0: int = 0x019fa1f95266715130d97769c946ab30040470c480339f392810d2b47dac5d19int;
    let x1: int = 0x07a8faa16660a91230b003fd0c597ea738ec0386049c46e27f5c626d87086e50int;
    lemma_next_square(96, x0, x1);
    let x2: int = 0x0240fc41f63c32ab8b51336fa9bed4f51540cf671c841a894ef9fe941c5a4861int;
    lemma_next_square(97, x1, x2);
    let x3: int = 0x00f1a46e52e5da6d359ddb459767a44a7a969b6235d2dfb668886b35b2bfa1adint;
    lemma_next_square(98, x2, x3);
    let x4: int = 0x05e88acbfdd73a36a2bd1d0671a0cdd222c99c9f5eac45882413e92cd772d637int;
    lemma_next_square(99, x3, x4);
    let x5: int = 0x01775d669ad23eac9491173a78d7b607a258cfc7dbe5763de43439f14fa405aaint;
    lemma_next_square(100, x4, x5);
    let x6: int = 0x06159e4a939b3ef32d89a7778091a28733cd57255d940684ea8cbefdd455f483int;
    lemma_next_square(101, x5, x6);
    let x7: int = 0x0156d837457eabd3354e3bf711c1d565d4f52ed24664959b7f2e2048c608d246int;
    lemma_next_square(102, x6, x7);
    let x8: int = 0x03761a4f5990b523acda84182a069b18d04f1eebbfee24ac4c69edd957269216int;
    lemma_next_square(103, x7, x8);
    let x9: int = 0x05b8acbcc282db6f4cc157b472328369db5a705f9fc63b7f6ace9477f4910a60int;
    lemma_next_square(104, x8, x9);
    let x10: int = 0x057e48762d9291a47df85fbbf428c4b94b92533d961f56adec982f608770a4beint;
    lemma_next_square(105, x9, x10);
    let x11: int = 0x03b22830dbefe5e902102b55e7eed224d777abd5009b84dc384c5e8b91b88258int;
    lemma_next_square(106, x10, x11);
    let x12: int = 0x031261d0ab40d7e4700766e17117c44a37c4a361aa690d1f82d06d783a41158aint;
    lemma_next_square(107, x11, x12);
    let x13: int = 0x004b0b60385306d47ef09e227bc3ff5f7046910d3bcf85c7ec7cfc1f10bdb6ccint;
    lemma_next_square(108, x12, x13);
    let x14: int = 0x06917cab04838ba13f6903d77d71ca2f64c25a072f53041307a4b921312f9080int;
    lemma_next_square(109, x13, x14);
    let x15: int = 0x0161444d63a080a007f123592544381e0ab73eefc55b1b6829617bad5b7be972int;
    lemma_next_square(110, x14, x15);
    let x16: int = 0x06263e1e108eec6a19935b68cc9d9b24d43bcf85471f947e12680395c2ba0f23int;
    lemma_next_square(111, x15, x16);
}

proof fn lemma_squares_to_128()
    requires
        repeated_square(112) == 0x06263e1e108eec6a19935b68cc9d9b24d43bcf85471f947e12680395c2ba0f23int,
    ensures
        repeated_square(128) == 0x0114a27896d1fe4c5be965ba8dd54dbe7d3eef8ba72b1f03b0a6628d72fb8b0dint,
{
    let x0: int = 0x06263e1e108eec6a19935b68cc9d9b24d43bcf85471f947e12680395c2ba0f23int;
    let x1: int = 0x01c5ef1268c997228b8d87357b0de8803cac8839573b44d78cc1d845a86eec0cint;
    lemma_next_square(112, x0, x1);
    let x2: int = 0x05dd79b04d0a367d234d8639dbea4a69bfddf5c559086db15e3197fcb79a92b1int;
    lemma_next_square(113, x1, x2);
    let x3: int = 0x002259fe4059cb5f59e4dbd250edf7ead7e0dbb9f1b9f4119733e8df9dc50729int;
    lemma_next_square(114, x2, x3);
    let x4: int = 0x069d8f0ce28baf8aeeedaa59b8183a1dc5daaff481ebc11719cd1b4e1824b92cint;
    lemma_next_square(115, x3, x4);
    let x5: int = 0x04f42d7f5d57bb23c1e326b312abaef5d0c3e0c67853b30dae703c5bcd9fedeeint;
    lemma_next_square(116, x4, x5);
    let x6: int = 0x03d296b9c387a3b5103ec3c817343c48cacd65df92a880891fb24e5e23088fc7int;
    lemma_next_square(117, x5, x6);
    let x7: int = 0x07acdde969bc866a8f4c1366fd6391750021a55ba96aeeab8ec7e11316334e1aint;
    lemma_next_square(118, x6, x7);
    let x8: int = 0x0712858b12d620d861aab25e0d732fdbd3616cb157a1cdecb9d70015f246c901int;
    lemma_next_square(119, x7, x8);
    let x9: int = 0x030762f8111f4192b174ad4623d95951709ca6c60430b01766d1942030408cb9int;
    lemma_next_square(120, x8, x9);
    let x10: int = 0x00b974a1f64289f793bae6507c287f58011853d8318277e80c4e7c07f966d24eint;
    lemma_next_square(121, x9, x10);
    let x11: int = 0x0160e9529f3d7f85113b6071bb65576e6539ee52f5d787d2ef78ac4c062bd860int;
    lemma_next_square(122, x10, x11);
    let x12: int = 0x013336c10fc8b5226f8987e37b429f7100f4a1285fd9edca448fff073e257b43int;
    lemma_next_square(123, x11, x12);
    let x13: int = 0x0020a1b2f11cbcf62e9ab5d6ff94d9fcd408ae7db08ddfa23909aad7cc7bf8c3int;
    lemma_next_square(124, x12, x13);
    let x14: int = 0x03c53bf5826df846ce51a153d0b370a19a58fd99771da991a1826724ed992efcint;
    lemma_next_square(125, x13, x14);
    let x15: int = 0x015f291ac9c0fea66ef2c68c44140d6ebf152353b9fa9dcc0256d8e606051d55int;
    lemma_next_square(126, x14, x15);
    let x16: int = 0x0114a27896d1fe4c5be965ba8dd54dbe7d3eef8ba72b1f03b0a6628d72fb8b0dint;
    lemma_next_square(127, x15, x16);
}

proof fn lemma_squares_to_144()
    requires
        repeated_square(128) == 0x0114a27896d1fe4c5be965ba8dd54dbe7d3eef8ba72b1f03b0a6628d72fb8b0dint,
    ensures
        repeated_square(144) == 0x030a2e815081f7d927f73df497923b55d38dbf3801c203cee2bf6c4b68bc148cint,
{
    let x0: int = 0x0114a27896d1fe4c5be965ba8dd54dbe7d3eef8ba72b1f03b0a6628d72fb8b0dint;
    let x1: int = 0x0592823dba66ff376dcfc3f204e3af6bdfdcae7a37e8a00691874856827caf53int;
    lemma_next_square(128, x0, x1);
    let x2: int = 0x03b9eb75bbfb94911160b441d34b0aa6084214302c65c94e8a0b9d028229376dint;
    lemma_next_square(129, x1, x2);
    let x3: int = 0x03d70de4258c2f230bfa523a6e93f6f39a76a3127fa7c6c40175aa1c8a08756fint;
    lemma_next_square(130, x2, x3);
    let x4: int = 0x0759502052fe197918729111f59deccccb704d0fd6fc96251d2b75385f65c188int;
    lemma_next_square(131, x3, x4);
    let x5: int = 0x071dd923ea63598d8a3a08baba82a050a566e7556861e2ce7f405a9f641826acint;
    lemma_next_square(132, x4, x5);
    let x6: int = 0x0395e7fc89f15c6fa8d469d88a1c381707403ad4e3681a159e0392a5120edfabint;
    lemma_next_square(133, x5, x6);
    let x7: int = 0x00f9ea29c819531b85b1f9bd5d1e2f0e82bc79b987969b48275e6b02f8133966int;
    lemma_next_square(134, x6, x7);
    let x8: int = 0x0147819bc9a18a1cfd1de1f92c5db3a45327d617477d39beefa724771cc4133cint;
    lemma_next_square(135, x7, x8);
    let x9: int = 0x036dd150a43bc89878c40b06cad54cf279d6de4827a1bbb138b8dc2ab6a791f1int;
    lemma_next_square(136, x8, x9);
    let x10: int = 0x07ec89264e3003f84f4471d7dfbc1d9736feeeead45eb3f52755d6c2850fb317int;
    lemma_next_square(137, x9, x10);
    let x11: int = 0x000c447edf93f2b505849ed84ad9302ddbb866a23200d367a2922d09e97bf51cint;
    lemma_next_square(138, x10, x11);
    let x12: int = 0x0593fcefc33590efc565794d54acb87c99f4d1a0c71ccc0d39bc513194ceaf98int;
    lemma_next_square(139, x11, x12);
    let x13: int = 0x059655bca59fd24212862a438a9a38b55582a9ff67455b5dc0cc855634db29f8int;
    lemma_next_square(140, x12, x13);
    let x14: int = 0x020895f803549e6077772f7c9ed55af88013dd5e588c8a511527727196934000int;
    lemma_next_square(141, x13, x14);
    let x15: int = 0x028d98a5c724e0c5cb05b3daaa13ffe5d4f3510d99cdc2e0be23b78ff11422a0int;
    lemma_next_square(142, x14, x15);
    let x16: int = 0x030a2e815081f7d927f73df497923b55d38dbf3801c203cee2bf6c4b68bc148cint;
    lemma_next_square(143, x15, x16);
}

proof fn lemma_squares_to_160()
    requires
        repeated_square(144) == 0x030a2e815081f7d927f73df497923b55d38dbf3801c203cee2bf6c4b68bc148cint,
    ensures
        repeated_square(160) == 0x050732ed0be8ced2fea566de48221e1a719252eb81c43de5c129d0f1d3ce8992int,
{
    let x0: int = 0x030a2e815081f7d927f73df497923b55d38dbf3801c203cee2bf6c4b68bc148cint;
    let x1: int = 0x009214cedbd56ba72ee2fccfb26a3811adfa956c86781a31852ba56e0643771fint;
    lemma_next_square(144, x0, x1);
    let x2: int = 0x07f3796f1055c25d713383d44e17ff38978f978534d1905d374012a6cc60fb85int;
    lemma_next_square(145, x1, x2);
    let x3: int = 0x05f5cf394a0503588a81d1376b06db5cbcc17ccd153c3d28462b41fadd5ca525int;
    lemma_next_square(146, x2, x3);
    let x4: int = 0x041ed5ed684fdb65a4b4eb09a3db81cdcd942bbdbb11fb86b640956fc3111bcbint;
    lemma_next_square(147, x3, x4);
    let x5: int = 0x02c4d3fae555c739dbb200719df95366fadfc0509c9f7f04ad7108d3e6fcfdb2int;
    lemma_next_square(148, x4, x5);
    let x6: int = 0x039ccdaa2f14e2f1e4f1f15bad75d32a5a48d46994be15ba38eaa186140e5623int;
    lemma_next_square(149, x5, x6);
    let x7: int = 0x0276097355446d35226f0a071a545f8b2319450aba5762ab5a896ef3b3bd8b7eint;
    lemma_next_square(150, x6, x7);
    let x8: int = 0x066d3f613676644e7fd3b59b4d1be159d5c3359362a1db767d13e948f39cd3e8int;
    lemma_next_square(151, x7, x8);
    let x9: int = 0x02b73cad6474b8f04f696cbaaceeb7f746aba1bcc7505f356966804cd990d491int;
    lemma_next_square(152, x8, x9);
    let x10: int = 0x0772cb7af261b6de31150ac13481c4fe3fef7c1b224402352693b83400637050int;
    lemma_next_square(153, x9, x10);
    let x11: int = 0x0100fff97b116fb92aa7ae1b21254c395c2006273fab8962051093f0622478c4int;
    lemma_next_square(154, x10, x11);
    let x12: int = 0x0685db923d7f5ae64f24ab196896a559860d442c8aea6ff765a19cf408a616fcint;
    lemma_next_square(155, x11, x12);
    let x13: int = 0x02399005571ddc34f58069e2cf93b2e59dca12d8ec14ba21081c31665dd8c4c3int;
    lemma_next_square(156, x12, x13);
    let x14: int = 0x07badc4b5d4ec2923c49a6302109fd561feb39d77d671a9d3ccd9d2b76b0a92eint;
    lemma_next_square(157, x13, x14);
    let x15: int = 0x0166c8e216a6e39cbd6ae1606340df6f95e231acd72200159aae0db32216f1c8int;
    lemma_next_square(158, x14, x15);
    let x16: int = 0x050732ed0be8ced2fea566de48221e1a719252eb81c43de5c129d0f1d3ce8992int;
    lemma_next_square(159, x15, x16);
}

proof fn lemma_squares_to_176()
    requires
        repeated_square(160) == 0x050732ed0be8ced2fea566de48221e1a719252eb81c43de5c129d0f1d3ce8992int,
    ensures
        repeated_square(176) == 0x01eb6d849978ee09b9d2cd854901fab81646d633f51eddbc80ee9837309d9da9int,
{
    let x0: int = 0x050732ed0be8ced2fea566de48221e1a719252eb81c43de5c129d0f1d3ce8992int;
    let x1: int = 0x060ac0c4573f0c286fec2239a9565d986a788149b9b9f2c98265b62b5de74517int;
    lemma_next_square(160, x0, x1);
    let x2: int = 0x022bde4080fb4ceae566a8e1c04b00b774a6431091af248d209745aaf81f58b4int;
    lemma_next_square(161, x1, x2);
    let x3: int = 0x05e7decaf2b876575397e8e2f1ee840cae9c3f9a3a96c59ef42231bbb030713cint;
    lemma_next_square(162, x2, x3);
    let x4: int = 0x057a797181c06d8427145cb66056f032751615d8617c5468258e96d2bb6422f9int;
    lemma_next_square(163, x3, x4);
    let x5: int = 0x01f05206a93b28f3ce0bc0d9fee282e4102e16b264c12e72eac5be9eea5f81cfint;
    lemma_next_square(164, x4, x5);
    let x6: int = 0x03d8d2c79e51225ca679e36b4795d34603148f22aa2da68432609f1d4586dbc3int;
    lemma_next_square(165, x5, x6);
    let x7: int = 0x06e8e7695c437763ce9a0d37f5fa46656e3398e68ef9a25ab86b03a44ca88ffcint;
    lemma_next_square(166, x6, x7);
    let x8: int = 0x071a47b8174a8e80e643d3ead664f4da1ad6f3beddc0f211f6b1348877156db2int;
    lemma_next_square(167, x7, x8);
    let x9: int = 0x01054544afb3df1a81cb2e43cd0be360d7c9c0a1b32a3b2301af11c3b40bdbe8int;
    lemma_next_square(168, x8, x9);
    let x10: int = 0x03e4383531eeac7c9822fb108d24a344d841544dd6482f17ead331453e3a2f4bint;
    lemma_next_square(169, x9, x10);
    let x11: int = 0x01f4c2bfbeea04f127e46d76ecbf157b030530a6e7c1b2fd006547440e5ffcb8int;
    lemma_next_square(170, x10, x11);
    let x12: int = 0x0594beafca8a00d9581d81caee93dc85c727c9af7fc4c648e3d47b998574e81fint;
    lemma_next_square(171, x11, x12);
    let x13: int = 0x02d25658f71614e33e277fa0223f6558858f5918f973dc221727fce0bffaa9dbint;
    lemma_next_square(172, x12, x13);
    let x14: int = 0x04768803ef85256034f67453635f87997ff61841e411ee63ce7b0a8b9745a046int;
    lemma_next_square(173, x13, x14);
    let x15: int = 0x06a6f98dc9761a8a0eeadedd3109e6119ec8116ceb7aa1c1a7b1f98c2755bfacint;
    lemma_next_square(174, x14, x15);
    let x16: int = 0x01eb6d849978ee09b9d2cd854901fab81646d633f51eddbc80ee9837309d9da9int;
    lemma_next_square(175, x15, x16);
}

proof fn lemma_squares_to_191()
    requires
        repeated_square(176) == 0x01eb6d849978ee09b9d2cd854901fab81646d633f51eddbc80ee9837309d9da9int,
    ensures
        repeated_square(191) == 0x0800000000000011000000000000000000000000000000000000000000000000int,
{
    let x0: int = 0x01eb6d849978ee09b9d2cd854901fab81646d633f51eddbc80ee9837309d9da9int;
    let x1: int = 0x034b5d5d611b72061c3a6e5c8bdbd9b393898bc862ef8a01e3efc75d13a77460int;
    lemma_next_square(176, x0, x1);
    let x2: int = 0x0393a32b34832dbad650df250f673d7c5edd09f076fc314a3e5a42f0606082e1int;
    lemma_next_square(177, x1, x2);
    let x3: int = 0x0363d70a6538624f68c341845689b2325c4564ebadf9bf788171e1da3112b02dint;
    lemma_next_square(178, x2, x3);
    let x4: int = 0x003d14df6ec477cfc061f4256749ae3ddb5375bc91ee171f9273dbbc7afd187fint;
    lemma_next_square(179, x3, x4);
    let x5: int = 0x010f4d91b5d9a6deed5ebbf4a3492c1ed439f57211b54c6c453916920fa30710int;
    lemma_next_square(180, x4, x5);
    let x6: int = 0x0659d83946a03edd72406af6711825f5653d9e35dc125289a206c054ec89c4f1int;
    lemma_next_square(181, x5, x6);
    let x7: int = 0x011d07d97880b4dc0234b46e6d4b9bd4a1f811a9e3bc8e32cc4074a0c13a1d0bint;
    lemma_next_square(182, x6, x7);
    let x8: int = 0x00c92ecbfd121b58bc7924d5dd51a717c4d78992d0e87cd59f1bc8d7ff0cb347int;
    lemma_next_square(183, x7, x8);
    let x9: int = 0x000fcad19556f9b8587781ce1b03a097efa6682256f9ddbcfdab65dbdd4af20fint;
    lemma_next_square(184, x8, x9);
    let x10: int = 0x0128f0fee82b2bb55e869a0710826800d09bd064f9e225ecd6871506b2703765int;
    lemma_next_square(185, x9, x10);
    let x11: int = 0x0789ad459ecd5c85fcdca219ce6246af26da375d1a8e79812225638f9b48a8abint;
    lemma_next_square(186, x10, x11);
    let x12: int = 0x05ec467b88826aba4537602d514425f3b0bdf467bbf302458337c45f6021e539int;
    lemma_next_square(187, x11, x12);
    let x13: int = 0x063365fe0de874d9c90adb1e2f9c676e98c62155e4412e873ada5e1dee6feebbint;
    lemma_next_square(188, x12, x13);
    let x14: int = 0x0625023929a2995b533120664329f8c7c5268e56ac8320da2a616626f41337e3int;
    lemma_next_square(189, x13, x14);
    let x15: int = 0x0800000000000011000000000000000000000000000000000000000000000000int;
    lemma_next_square(190, x14, x15);
}

/// Raising the root to half its order gives minus one.
pub proof fn lemma_root_to_half_order()
    ensures
        pow(root(), pow2(191)) % prime() == prime() - 1,
{
    lemma2_to64();
    lemma_pow1(root());
    lemma_small_mod(root() as nat, prime() as nat);
    lemma_squares_to_16();
    lemma_squares_to_32();
    lemma_squares_to_48();
    lemma_squares_to_64();
    lemma_squares_to_80();
    lemma_squares_to_96();
    lemma_squares_to_112();
    lemma_squares_to_128();
    lemma_squares_to_144();
    lemma_squares_to_160();
    lemma_squares_to_176();
    lemma_squares_to_191();
}

/// The modulus is prime.
pub proof fn lemma_prime()
    ensures
        is_prime(prime()),
{
    lemma_root_to_half_order();
    lemma2_to64();
    lemma_pow2_adds(64, 64);
    lemma_pow2_adds(128, 64);
    let order: nat = 0x1000000000000000000000000000000000000000000000000nat;
    assert(order == pow2(192));
    assert(prime() < order * order) by (nonlinear_arith)
        requires
            order == 0x1000000000000000000000000000000000000000000000000int,
    ;
    lemma_prime_by_square_roots(prime(), root(), 192);
}

} // verus!
